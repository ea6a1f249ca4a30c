# linkerd-trace

Shows how requests to a service in a Linkerd mesh are routed: the routes and rules of its outbound
policy, the backends that they lead to, and the deployments, replica sets and pods behind those,
down to the endpoints.

```
trace for service web-svc.emojivoto:
├── protocol: detect (opaque, HTTP/1, HTTP/2)
└── <default HTTP/1 route "http">:
    └── <rule 0>:
        └── backends (first available):
            └── svc web-svc.emojivoto:80:
                ├── endpoint: 10.43.0.7:80
                ├── FQDN: web-svc.emojivoto.svc.cluster.local:80
                └── deployment web:
                    └── replicaset web-rs (1/2 replicas available):
                        └── pod web-1 (2/2 containers ready):
                            ├── ready containers: app, proxy
                            └── endpoint: 10.0.0.1:80
```

## Layout

- `src/` is the library, verified with Verus. `service` makes the trace of a service out of
  `protocol` (routes, rules and backends) and `children` (the workloads behind a backend);
  `defaults` tells which policies have no routes of their own, and `identity` numbers backends so
  that equal ones are known. The trace needs objects that only the cluster has, so it runs on the
  replies that have come so far and says which request comes next (`ctx`); `replay` proves that
  running it again on more replies takes the same way. `endpoints` keeps the endpoints that a stream of updates leaves. `placement` proves where
  endpoints end up among the workloads. `drawing` turns the tree into text.
- `app/` is the program: it talks to the cluster and to the control plane, hands replies to the
  library and prints the trace.
- `tests/` runs the library on concrete policies and replies.
