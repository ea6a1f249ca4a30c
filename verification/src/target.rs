//! The texts by which a trace is started.
use crate::text::{
    append_decimal, decimal, join, join_texts, law_join_puts_one_separator_between, texts,
};
use vstd::prelude::*;
use vstd::string::*;

verus! {

/// The parts of a label selector: every label as key and value.
pub open spec fn selector_parts(labels: Seq<(String, String)>) -> Seq<Seq<char>> {
    Seq::new(labels.len(), |i: int| labels[i].0@ + "="@ + labels[i].1@)
}

/// The selector for objects that have all of `labels`.
pub fn selector_text(labels: &Vec<(String, String)>) -> (text: String)
    ensures
        text@ == join(selector_parts(labels@), ","@),
{
    let mut parts: Vec<String> = Vec::new();
    let mut i: usize = 0;
    assert(texts(parts@) =~= selector_parts(labels@).take(0));
    while i < labels.len()
        invariant
            i <= labels.len(),
            texts(parts@) == selector_parts(labels@).take(i as int),
        decreases labels.len() - i,
    {
        let ghost before = texts(parts@);
        let mut part = labels[i].0.clone();
        part.append("=");
        part.append(labels[i].1.as_str());
        parts.push(part);
        assert(texts(parts@) =~= before.push(part@));
        i += 1;
        assert(texts(parts@) =~= selector_parts(labels@).take(i as int));
    }
    assert(selector_parts(labels@).take(i as int) =~= selector_parts(labels@));
    join_texts(&parts, ",")
}

/// The name and port by which proxies address a service.
pub open spec fn authority_text(name: Seq<char>, namespace: Seq<char>, port: u16) -> Seq<char> {
    name + "."@ + namespace + ".svc:"@ + decimal(port as nat)
}

/// The name and port by which proxies address a service.
pub fn authority(name: &str, namespace: &str, port: u16) -> (text: String)
    ensures
        text@ == authority_text(name@, namespace@, port),
{
    let mut text = name.to_owned();
    text.append(".");
    text.append(namespace);
    text.append(".svc:");
    append_decimal(&mut text, port as u64);
    text
}

/// What the destination service is asked for the endpoints, and for the profiles, at a path.
#[derive(Debug)]
pub struct DestinationQuery {
    pub scheme: String,
    pub path: String,
    pub context_token: String,
}

/// What the destination service is asked for a path.
pub fn destination_query(path: String) -> (query: DestinationQuery)
    ensures
        query.scheme@ == "http:"@,
        query.path@ == path@,
        query.context_token@ == "diagnostics"@,
{
    DestinationQuery {
        scheme: "http:".to_owned(),
        path,
        context_token: "diagnostics".to_owned(),
    }
}

/// What the policy controller is asked for the policy of a service.
#[derive(Debug)]
pub struct PolicyQuery {
    pub source_workload: String,
    pub authority: String,
}

/// What the policy controller is asked for the policy of a service.
pub fn policy_query(name: &str, namespace: &str, port: u16) -> (query: PolicyQuery)
    ensures
        query.source_workload@ == "default:diagnostics"@,
        query.authority@ == authority_text(name@, namespace@, port),
{
    PolicyQuery {
        source_workload: "default:diagnostics".to_owned(),
        authority: authority(name, namespace, port),
    }
}

/// The selector for one label is its key and value, and that for two lists of labels is theirs
/// with a comma between them.
pub proof fn law_selector_names_every_label(
    labels: Seq<(String, String)>,
    more: Seq<(String, String)>,
)
    ensures
        labels.len() == 1 ==> join(selector_parts(labels), ","@) == labels[0].0@ + "="@
            + labels[0].1@,
        labels.len() > 0 && more.len() > 0 ==> join(selector_parts(labels + more), ","@) == join(
            selector_parts(labels),
            ","@,
        ) + ","@ + join(selector_parts(more), ","@),
{
    law_join_puts_one_separator_between(selector_parts(labels), selector_parts(more), ","@);
    assert(selector_parts(labels + more) =~= selector_parts(labels) + selector_parts(more));
}

} // verus!
