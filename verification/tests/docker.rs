use dobby_backend::api::{STATUS_BAD_GATEWAY, STATUS_BAD_REQUEST, STATUS_SERVICE_UNAVAILABLE};
use dobby_backend::docker::{
    action_outcome, client_missing_error, containers_listing, docker_error, parse_action,
    unavailable, ContainerAction, ContainerConfig, ContainerDetailsDto, ContainerDto,
    ContainerInspect, ContainerState, ContainerSummary, DockerFailure, Endpoint, Label,
    MountPoint, PortBinding, PortMapping, PortSummary,
};

fn empty_inspect() -> ContainerInspect {
    ContainerInspect {
        id: None,
        name: None,
        image: None,
        created: None,
        path: None,
        args: None,
        restart_count: None,
        platform: None,
        state: None,
        restart_policy: None,
        config: None,
        mounts: None,
        ports: None,
        networks: None,
    }
}

/// A representative inspect payload covering ports (published, dual-stack and
/// exposed-only), mounts, networks and host config.
fn inspect_fixture() -> ContainerInspect {
    ContainerInspect {
        id: Some("deadbeef1234".into()),
        name: Some("/web".into()),
        created: Some("2026-06-01T10:00:00.000000000Z".into()),
        path: Some("nginx".into()),
        args: Some(vec!["-g".into(), "daemon off;".into()]),
        restart_count: Some(2),
        platform: Some("linux".into()),
        state: Some(ContainerState {
            status: Some("running".into()),
            exit_code: Some(0),
            started_at: Some("2026-06-10T08:00:00Z".into()),
            finished_at: Some("0001-01-01T00:00:00Z".into()),
        }),
        restart_policy: Some("unless-stopped".into()),
        config: Some(ContainerConfig {
            image: Some("nginx:1.27".into()),
            working_dir: Some("/srv".into()),
            env: Some(vec!["PATH=/usr/bin".into()]),
            labels: Some(vec![Label {
                key: "com.example.app".into(),
                value: "web".into(),
            }]),
        }),
        mounts: Some(vec![MountPoint {
            typ: Some("bind".into()),
            name: None,
            source: Some("/srv/data".into()),
            destination: Some("/data".into()),
            mode: Some("rw".into()),
            rw: Some(true),
        }]),
        ports: Some(vec![
            PortMapping {
                key: "9090/tcp".into(),
                bindings: None,
            },
            PortMapping {
                key: "80/tcp".into(),
                bindings: Some(vec![
                    PortBinding {
                        host_ip: Some("0.0.0.0".into()),
                        host_port: Some("8080".into()),
                    },
                    PortBinding {
                        host_ip: Some("::".into()),
                        host_port: Some("8080".into()),
                    },
                ]),
            },
        ]),
        networks: Some(vec![Endpoint {
            name: "bridge".into(),
            ip_address: Some("172.17.0.2".into()),
            gateway: Some("172.17.0.1".into()),
            mac_address: Some("02:42:ac:11:00:02".into()),
        }]),
        ..empty_inspect()
    }
}

#[test]
fn details_dto_maps_core_fields() {
    let dto = ContainerDetailsDto::from_inspect(inspect_fixture());

    assert_eq!(dto.id, "deadbeef1234");
    assert_eq!(dto.name, "web");
    assert_eq!(dto.image, "nginx:1.27");
    assert_eq!(dto.state, "running");
    assert_eq!(dto.command.as_deref(), Some("nginx -g daemon off;"));
    assert_eq!(dto.restart_policy.as_deref(), Some("unless-stopped"));
    assert_eq!(dto.restart_count, 2);
    assert_eq!(dto.working_dir.as_deref(), Some("/srv"));
    assert_eq!(dto.started_at.as_deref(), Some("2026-06-10T08:00:00Z"));
    assert_eq!(dto.finished_at, None);
    assert_eq!(dto.env, vec!["PATH=/usr/bin".to_string()]);
    let label = dto.labels.iter().find(|l| l.key == "com.example.app").unwrap();
    assert_eq!(label.value, "web");
}

#[test]
fn details_dto_maps_ports_mounts_networks() {
    let dto = ContainerDetailsDto::from_inspect(inspect_fixture());

    assert_eq!(dto.ports.len(), 3);
    assert_eq!(dto.ports[0].container_port, 80);
    assert_eq!(dto.ports[0].host_ip.as_deref(), Some("0.0.0.0"));
    assert_eq!(dto.ports[0].host_port, Some(8080));
    assert_eq!(dto.ports[1].host_ip.as_deref(), Some("::"));
    assert_eq!(dto.ports[2].container_port, 9090);
    assert_eq!(dto.ports[2].host_port, None);

    assert_eq!(dto.mounts.len(), 1);
    let m = &dto.mounts[0];
    assert_eq!(m.typ.as_deref(), Some("bind"));
    assert_eq!(m.source.as_deref(), Some("/srv/data"));
    assert_eq!(m.destination.as_deref(), Some("/data"));
    assert_eq!(m.rw, Some(true));

    assert_eq!(dto.networks.len(), 1);
    let n = &dto.networks[0];
    assert_eq!(n.name, "bridge");
    assert_eq!(n.ip_address.as_deref(), Some("172.17.0.2"));
    assert_eq!(n.gateway.as_deref(), Some("172.17.0.1"));
}

#[test]
fn details_dto_handles_empty_inspect() {
    let dto = ContainerDetailsDto::from_inspect(ContainerInspect {
        id: Some("cafebabe000011112222".into()),
        ..empty_inspect()
    });

    assert_eq!(dto.name, "cafebabe0000");
    assert_eq!(dto.state, "unknown");
    assert_eq!(dto.command, None);
    assert_eq!(dto.restart_policy, None);
    assert!(dto.ports.is_empty());
    assert!(dto.mounts.is_empty());
    assert!(dto.networks.is_empty());
}

#[test]
fn details_ports_are_sorted_and_deduplicated() {
    let dto = ContainerDetailsDto::from_inspect(ContainerInspect {
        ports: Some(vec![
            PortMapping {
                key: "443/udp".into(),
                bindings: Some(vec![]),
            },
            PortMapping {
                key: "443/tcp".into(),
                bindings: Some(vec![
                    PortBinding { host_ip: Some("".into()), host_port: Some("x".into()) },
                    PortBinding { host_ip: None, host_port: None },
                ]),
            },
            PortMapping { key: "nonsense".into(), bindings: None },
            PortMapping { key: "70000/tcp".into(), bindings: None },
        ]),
        ..empty_inspect()
    });
    // The two 443/tcp bindings read the same once an empty address and an
    // unparseable port count as absent, so only one row is kept.
    assert_eq!(dto.ports.len(), 2);
    assert_eq!(dto.ports[0].protocol, "tcp");
    assert_eq!(dto.ports[0].host_ip, None);
    assert_eq!(dto.ports[0].host_port, None);
    assert_eq!(dto.ports[1].protocol, "udp");
}

#[test]
fn details_sorts_mounts_networks_labels_and_drops_empty_fields() {
    let mount = |dest: Option<&str>, src: &str| MountPoint {
        typ: None,
        name: None,
        source: Some(src.into()),
        destination: dest.map(|d| d.to_string()),
        mode: Some("".into()),
        rw: None,
    };
    let dto = ContainerDetailsDto::from_inspect(ContainerInspect {
        name: Some("//".into()),
        id: Some("abc".into()),
        image: Some("sha256:digest".into()),
        path: Some("sh".into()),
        args: Some(vec![]),
        restart_policy: Some("no".into()),
        mounts: Some(vec![mount(Some("/b"), "x"), mount(None, ""), mount(Some("/a"), "y")]),
        networks: Some(vec![
            Endpoint { name: "zeta".into(), ip_address: Some("".into()), gateway: None, mac_address: None },
            Endpoint { name: "alpha".into(), ip_address: None, gateway: None, mac_address: None },
        ]),
        config: Some(ContainerConfig {
            image: None,
            working_dir: Some("".into()),
            env: None,
            labels: Some(vec![
                Label { key: "b".into(), value: "2".into() },
                Label { key: "a".into(), value: "1".into() },
            ]),
        }),
        ..empty_inspect()
    });
    assert_eq!(dto.name, "abc");
    assert_eq!(dto.image, "sha256:digest");
    assert_eq!(dto.command.as_deref(), Some("sh"));
    assert_eq!(dto.restart_policy, None);
    assert_eq!(dto.working_dir, None);
    assert_eq!(dto.mounts[0].destination, None);
    assert_eq!(dto.mounts[0].source, None);
    assert_eq!(dto.mounts[1].destination.as_deref(), Some("/a"));
    assert_eq!(dto.mounts[2].destination.as_deref(), Some("/b"));
    assert_eq!(dto.mounts[2].mode, None);
    assert_eq!(dto.networks[0].name, "alpha");
    assert_eq!(dto.networks[1].name, "zeta");
    assert_eq!(dto.networks[1].ip_address, None);
    assert_eq!(dto.labels[0].key, "a");
    assert_eq!(dto.labels[1].key, "b");
}

#[test]
fn details_labels_keep_one_value_per_key_the_later_one() {
    let label = |k: &str, v: &str| Label { key: k.into(), value: v.into() };
    let dto = ContainerDetailsDto::from_inspect(ContainerInspect {
        config: Some(ContainerConfig {
            image: None,
            working_dir: None,
            env: None,
            labels: Some(vec![
                label("tier", "web"),
                label("app", "one"),
                label("tier", "db"),
                label("app", "two"),
                label("owner", "ops"),
            ]),
        }),
        ..empty_inspect()
    });
    let pairs: Vec<(&str, &str)> =
        dto.labels.iter().map(|l| (l.key.as_str(), l.value.as_str())).collect();
    assert_eq!(pairs, vec![("app", "two"), ("owner", "ops"), ("tier", "db")]);
}

fn summary(id: &str, created: i64) -> ContainerSummary {
    ContainerSummary {
        id: Some(id.into()),
        names: None,
        image: None,
        state: None,
        status: None,
        created: Some(created),
        ports: None,
    }
}

#[test]
fn container_row_maps_names_ports_and_defaults() {
    let row = ContainerDto::from_summary(ContainerSummary {
        id: Some("0123456789abcdef".into()),
        names: Some(vec!["/web".into(), "/other".into()]),
        image: Some("nginx".into()),
        state: Some("running".into()),
        status: Some("Up 2 hours".into()),
        created: Some(1_700_000_000),
        ports: Some(vec![
            PortSummary { private_port: 80, public_port: Some(8080), typ: Some("tcp".into()) },
            PortSummary { private_port: 80, public_port: Some(8080), typ: Some("tcp".into()) },
            PortSummary { private_port: 53, public_port: None, typ: Some("udp".into()) },
            PortSummary { private_port: 80, public_port: None, typ: None },
        ]),
    });
    assert_eq!(row.name, "web");
    assert_eq!(row.state, "running");
    assert_eq!(row.ports.len(), 3);
    assert_eq!((row.ports[0].private, row.ports[0].public, row.ports[0].proto.as_str()), (53, None, "udp"));
    assert_eq!((row.ports[1].private, row.ports[1].public, row.ports[1].proto.as_str()), (80, None, "tcp"));
    assert_eq!((row.ports[2].private, row.ports[2].public, row.ports[2].proto.as_str()), (80, Some(8080), "tcp"));

    let bare = ContainerDto::from_summary(summary("0123456789abcdef", 5));
    assert_eq!(bare.name, "0123456789ab");
    assert_eq!(bare.state, "unknown");
    assert_eq!(bare.image, "");
}

#[test]
fn listing_is_newest_first_and_stable() {
    let body = containers_listing(vec![summary("a", 10), summary("b", 30), summary("c", 10), summary("d", 20)]);
    assert!(body.available);
    assert_eq!(body.error, None);
    let ids: Vec<&str> = body.containers.iter().map(|c| c.id.as_str()).collect();
    assert_eq!(ids, vec!["b", "d", "a", "c"]);

    let down = unavailable("socket missing");
    assert!(!down.available);
    assert_eq!(down.error.as_deref(), Some("socket missing"));
    assert!(down.containers.is_empty());
}

#[test]
fn actions_are_parsed_and_unknown_ones_rejected() {
    assert_eq!(parse_action("restart").unwrap(), ContainerAction::Restart);
    assert_eq!(parse_action("start").unwrap(), ContainerAction::Start);
    assert_eq!(parse_action("stop").unwrap(), ContainerAction::Stop);
    let err = parse_action("kill").unwrap_err();
    assert_eq!(err.status, STATUS_BAD_REQUEST);
    assert_eq!(err.message, "unsupported action: \"kill\" (expected restart|start|stop)");
}

#[test]
fn action_outcomes_and_daemon_errors() {
    let ok = action_outcome(Ok(()), "x".into(), "start".into()).unwrap();
    assert!(ok.ok);
    assert_eq!(ok.id, "x");
    assert_eq!(ok.action, "start");

    let not_modified = action_outcome(
        Err(DockerFailure { server_status: Some(304), message: "already".into() }),
        "x".into(),
        "stop".into(),
    )
    .unwrap();
    assert!(not_modified.ok);

    let missing = action_outcome(
        Err(DockerFailure { server_status: Some(404), message: "no such container".into() }),
        "x".into(),
        "stop".into(),
    )
    .unwrap_err();
    assert_eq!(missing.status, 404);
    assert_eq!(missing.message, "no such container");

    let odd = docker_error(DockerFailure { server_status: Some(42), message: "odd".into() });
    assert_eq!(odd.status, STATUS_BAD_GATEWAY);
    let io = docker_error(DockerFailure { server_status: None, message: "io".into() });
    assert_eq!(io.status, STATUS_BAD_GATEWAY);

    let none = client_missing_error();
    assert_eq!(none.status, STATUS_SERVICE_UNAVAILABLE);
    assert_eq!(none.message, "Docker client was not initialised");
}
