use nsrelay::config::{
    merge_forwards, parse_mode, plan_tasks, ConfigError, Defaults, ForwardInline, ForwardSpec,
    Owner, SpecError, TaskKind, DEFAULT_BACKLOG,
};

fn text(s: &str) -> Option<String> {
    Some(s.to_string())
}

fn no_defaults() -> Defaults {
    Defaults { uds_dir: None, mode: None, owner: None, backlog: None }
}

#[test]
fn host_proxy_spec_starts_host_proxy_only() {
    let mut spec = ForwardSpec::empty();
    spec.listen = text("127.0.0.1:2222");
    spec.uds = text("/tmp/t.sock");
    assert_eq!(spec.task_kinds(), vec![TaskKind::HostProxy]);
    assert!(spec.validate().is_ok());
}

#[test]
fn namespace_spec_starts_namespace_endpoint() {
    let mut spec = ForwardSpec::empty();
    spec.namespace = text("qdhcp-1234");
    spec.uds = text("/run/qdhcp/ssh.sock");
    spec.target = text("192.168.31.201:22");
    assert_eq!(spec.task_kinds(), vec![TaskKind::NamespaceEndpoint]);
}

#[test]
fn one_spec_may_start_several_tasks() {
    let mut spec = ForwardSpec::empty();
    spec.listen = text("0.0.0.0:2222");
    spec.setns_path = text("/proc/1/ns/net");
    spec.uds = text("/run/x.sock");
    spec.target = text("10.0.0.1:22");
    spec.udp_listen = text("127.0.0.1:9000");
    spec.udp_target = text("127.0.0.1:9001");
    assert_eq!(
        spec.task_kinds(),
        vec![TaskKind::NamespaceEndpoint, TaskKind::HostProxy, TaskKind::UdpRelay]
    );
}

#[test]
fn direct_tcp_spec_starts_tcp_proxy() {
    let mut spec = ForwardSpec::empty();
    spec.listen = text("0.0.0.0:8080");
    spec.target = text("10.0.0.2:80");
    assert_eq!(spec.task_kinds(), vec![TaskKind::TcpProxy]);
    assert!(!spec.requires_host_proxy());
    assert!(spec.requires_tcp_proxy());
}

#[test]
fn task_kinds_are_deterministic() {
    let mut a = ForwardSpec::empty();
    a.listen = text("1.2.3.4:1");
    a.uds = text("/a.sock");
    let mut b = ForwardSpec::empty();
    b.listen = text("5.6.7.8:2");
    b.uds = text("/b.sock");
    assert_eq!(a.task_kinds(), a.task_kinds());
    assert_eq!(a.task_kinds(), b.task_kinds());
}

#[test]
fn validate_reports_each_error() {
    let mut spec = ForwardSpec::empty();
    spec.listen = text("0.0.0.0:1");
    assert_eq!(spec.validate(), Err(SpecError::MissingUds));
    let mut spec = ForwardSpec::empty();
    spec.uds = text("/x.sock");
    assert_eq!(spec.validate(), Err(SpecError::NoEntryPoint));
    let mut spec = ForwardSpec::empty();
    spec.uds = text("/x.sock");
    spec.namespace = text("ns");
    assert_eq!(spec.validate(), Ok(()));
}

#[test]
fn apply_defaults_derives_socket_path() {
    let mut spec = ForwardSpec::empty();
    spec.label = text("ssh");
    spec.mode = Some(0o600);
    let defaults = Defaults {
        uds_dir: text("/run/relay"),
        mode: Some(0o660),
        owner: Some(Owner { uid: 1, gid: 2 }),
        backlog: Some(128),
    };
    spec.apply_defaults(&defaults);
    assert_eq!(spec.uds.as_deref(), Some("/run/relay/ssh.sock"));
    assert_eq!(spec.mode, Some(0o600));
    assert_eq!(spec.owner, Some(Owner { uid: 1, gid: 2 }));
    assert_eq!(spec.backlog, Some(128));
    assert_eq!(spec.uds_path(), "/run/relay/ssh.sock");
}

#[test]
fn apply_defaults_joins_like_a_path() {
    let mut spec = ForwardSpec::empty();
    spec.label = text("web");
    let mut defaults = no_defaults();
    defaults.uds_dir = text("/run/relay/");
    spec.apply_defaults(&defaults);
    assert_eq!(spec.uds.as_deref(), Some("/run/relay/web.sock"));

    let mut spec = ForwardSpec::empty();
    spec.label = text("/abs/web");
    spec.apply_defaults(&defaults);
    assert_eq!(spec.uds.as_deref(), Some("/abs/web.sock"));

    let mut spec = ForwardSpec::empty();
    spec.label = text("web");
    spec.uds = text("/given.sock");
    spec.apply_defaults(&defaults);
    assert_eq!(spec.uds.as_deref(), Some("/given.sock"));

    let mut spec = ForwardSpec::empty();
    spec.apply_defaults(&defaults);
    assert_eq!(spec.uds, None);
    assert_eq!(spec.backlog_or_default(), DEFAULT_BACKLOG);
}

#[test]
fn modes_are_octal_or_decimal() {
    assert_eq!(parse_mode("0o660"), Ok(432));
    assert_eq!(parse_mode("0660"), Ok(432));
    assert_eq!(parse_mode("420"), Ok(420));
    assert_eq!(parse_mode("0"), Ok(0));
    assert_eq!(parse_mode("+7"), Ok(7));
    assert_eq!(parse_mode("0o8"), Err(ConfigError::InvalidMode));
    assert_eq!(parse_mode("09"), Err(ConfigError::InvalidMode));
    assert_eq!(parse_mode("rw"), Err(ConfigError::InvalidMode));
    assert_eq!(parse_mode(""), Err(ConfigError::InvalidMode));
    assert_eq!(parse_mode("4294967296"), Err(ConfigError::InvalidMode));
    assert_eq!(parse_mode("4294967295"), Ok(u32::MAX));
}

#[test]
fn numeric_owner_needs_no_lookup() {
    assert_eq!(Owner::parse("1000:100"), Ok(Owner { uid: 1000, gid: 100 }));
    assert_eq!(Owner::parse("root"), Err(ConfigError::InvalidOwner));
    assert_eq!("0:0".parse::<Owner>(), Ok(Owner { uid: 0, gid: 0 }));
}

#[test]
fn unknown_owner_names_are_rejected() {
    assert_eq!(
        Owner::parse("no-such-user-xq7:0"),
        Err(ConfigError::UnknownUser)
    );
    assert_eq!(
        Owner::parse("0:no-such-group-xq7"),
        Err(ConfigError::UnknownGroup)
    );
}

#[test]
fn inline_forward_reads_every_key() {
    let f = ForwardInline::parse(
        " listen = 0.0.0.0:2222 ,uds=/run/q/ssh.sock,MODE=0660,owner=1:2,backlog=10,label=ssh,udp_idle_timeout=5",
    )
    .unwrap();
    let spec = f.0;
    assert_eq!(spec.listen.as_deref(), Some("0.0.0.0:2222"));
    assert_eq!(spec.uds.as_deref(), Some("/run/q/ssh.sock"));
    assert_eq!(spec.mode, Some(0o660));
    assert_eq!(spec.owner, Some(Owner { uid: 1, gid: 2 }));
    assert_eq!(spec.backlog, Some(10));
    assert_eq!(spec.label.as_deref(), Some("ssh"));
    assert_eq!(spec.udp_idle_timeout, Some(5));
    assert_eq!(spec.udp_idle_timeout_ms(), 5000);
    assert_eq!(spec.namespace, None);
}

#[test]
fn inline_forward_last_value_wins() {
    let f: ForwardInline = "namespace=a,uds=/x.sock,target=1.1.1.1:22,namespace=b".parse().unwrap();
    assert_eq!(f.0.namespace.as_deref(), Some("b"));
    assert_eq!(f.0.setns_path, None);
}

#[test]
fn inline_forward_errors() {
    assert_eq!(
        ForwardInline::parse("listen=1,uds").unwrap_err(),
        ConfigError::MissingEquals
    );
    assert_eq!(
        ForwardInline::parse("listen=1,colour=red").unwrap_err(),
        ConfigError::UnknownKey
    );
    assert_eq!(
        ForwardInline::parse("colour=red,mode=abc").unwrap_err(),
        ConfigError::InvalidMode
    );
    assert_eq!(
        ForwardInline::parse("backlog=-1").unwrap_err(),
        ConfigError::InvalidBacklog
    );
    assert_eq!(
        ForwardInline::parse("udp_idle_timeout=1s").unwrap_err(),
        ConfigError::InvalidIdleTimeout
    );
    assert_eq!(
        ForwardInline::parse("owner=nobody").unwrap_err(),
        ConfigError::InvalidOwner
    );
    assert_eq!(ForwardInline::parse("").unwrap_err(), ConfigError::MissingEquals);
}

#[test]
fn idle_timeout_defaults_and_saturates() {
    let mut spec = ForwardSpec::empty();
    assert_eq!(spec.udp_idle_timeout_ms(), 60_000);
    spec.udp_idle_timeout = Some(u64::MAX);
    assert_eq!(spec.udp_idle_timeout_ms(), u64::MAX);
}

#[test]
fn merge_fills_and_validates_in_order() {
    let mut file_spec = ForwardSpec::empty();
    file_spec.listen = text("0.0.0.0:1");
    file_spec.label = text("a");
    let inline = ForwardInline::parse("namespace=n,target=1.2.3.4:5,label=b").unwrap();
    let mut defaults = no_defaults();
    defaults.uds_dir = text("/run/r");
    defaults.backlog = Some(7);
    let merged = merge_forwards(&defaults, vec![file_spec], vec![inline]).unwrap();
    assert_eq!(merged.len(), 2);
    assert_eq!(merged[0].uds.as_deref(), Some("/run/r/a.sock"));
    assert_eq!(merged[1].uds.as_deref(), Some("/run/r/b.sock"));
    assert_eq!(merged[1].backlog, Some(7));

    let bad = ForwardSpec::empty();
    assert_eq!(
        merge_forwards(&defaults, vec![bad], vec![]).unwrap_err(),
        SpecError::MissingUds
    );
}

#[test]
fn plan_lists_tasks_per_spec() {
    let mut a = ForwardSpec::empty();
    a.listen = text("0.0.0.0:1");
    a.uds = text("/a.sock");
    let mut b = ForwardSpec::empty();
    b.udp_listen = text("127.0.0.1:9000");
    b.udp_target = text("127.0.0.1:9001");
    let plan = plan_tasks(&vec![a, b]);
    assert_eq!(plan, vec![(0, TaskKind::HostProxy), (1, TaskKind::UdpRelay)]);
}
