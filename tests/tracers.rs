use mta_core::tracers::{parse_tracer, LogLevel, Rotation, Tracer, TracerError, TracerKeys, Tracers};

fn keys(kind: Option<&str>) -> TracerKeys {
    TracerKeys {
        kind: kind.map(|s| s.to_string()),
        level: None,
        path: None,
        prefix: None,
        rotate: None,
        ansi: None,
        transport: None,
        endpoint: None,
        headers: Vec::new(),
    }
}

fn s(v: &str) -> Option<String> {
    Some(v.to_string())
}

#[test]
fn stdout_tracer() {
    let mut k = keys(Some("stdout"));
    k.level = s("debug");
    k.ansi = s("false");
    let out = parse_tracer(&k);
    assert_eq!(out.tracer, Some(Tracer::Stdout { level: LogLevel::Debug, ansi: false }));
    assert!(out.errors.is_empty());
}

#[test]
fn levels() {
    for (text, level) in [("5", LogLevel::Trace), ("WARN", LogLevel::Warn), ("error", LogLevel::Error)] {
        let mut k = keys(Some("journal"));
        k.level = s(text);
        let out = parse_tracer(&k);
        assert_eq!(out.tracer, Some(Tracer::Journal { level }));
        assert!(out.errors.is_empty());
    }
    let mut k = keys(Some("journal"));
    k.level = s("loud");
    let out = parse_tracer(&k);
    assert_eq!(out.tracer, Some(Tracer::Journal { level: LogLevel::Info }));
    assert_eq!(out.errors, vec![TracerError::InvalidLevel]);
}

#[test]
fn log_tracer() {
    let k = keys(Some("log"));
    let out = parse_tracer(&k);
    assert_eq!(out.tracer, None);
    assert_eq!(out.errors, vec![TracerError::MissingPath]);

    let mut k = keys(Some("log"));
    k.path = s("/var/log");
    k.rotate = s("weekly");
    let out = parse_tracer(&k);
    assert_eq!(
        out.tracer,
        Some(Tracer::Log {
            level: LogLevel::Info,
            path: "/var/log".to_string(),
            prefix: "stalwart".to_string(),
            rotate: Rotation::Daily,
            ansi: true,
        })
    );
    assert_eq!(out.errors, vec![TracerError::InvalidRotate]);

    k.rotate = s("hourly");
    k.prefix = s("mta");
    let out = parse_tracer(&k);
    assert_eq!(
        out.tracer,
        Some(Tracer::Log {
            level: LogLevel::Info,
            path: "/var/log".to_string(),
            prefix: "mta".to_string(),
            rotate: Rotation::Hourly,
            ansi: true,
        })
    );
    assert!(out.errors.is_empty());
}

#[test]
fn otel_tracers() {
    let mut k = keys(Some("otel"));
    let out = parse_tracer(&k);
    assert_eq!(out.tracer, None);
    assert_eq!(out.errors, vec![TracerError::MissingTransport]);

    k.transport = s("gprc");
    k.endpoint = s("http://collector:4317");
    let out = parse_tracer(&k);
    assert_eq!(
        out.tracer,
        Some(Tracer::OtelGrpc {
            level: LogLevel::Info,
            endpoint: s("http://collector:4317"),
        })
    );

    let mut k = keys(Some("open-telemetry"));
    k.transport = s("http");
    let out = parse_tracer(&k);
    assert_eq!(out.errors, vec![TracerError::MissingEndpoint]);

    k.endpoint = s("http://collector:4318");
    k.headers = vec![
        " Authorization :  Bearer x ".to_string(),
        "broken".to_string(),
        "X-Later: y".to_string(),
    ];
    let out = parse_tracer(&k);
    assert_eq!(
        out.tracer,
        Some(Tracer::OtelHttp {
            level: LogLevel::Info,
            endpoint: "http://collector:4318".to_string(),
            headers: vec![("Authorization".to_string(), "Bearer x".to_string())],
        })
    );
    assert_eq!(out.errors, vec![TracerError::InvalidHeader]);

    k.transport = s("");
    let out = parse_tracer(&k);
    assert_eq!(out.tracer, None);
    assert!(out.errors.is_empty());

    k.transport = s("udp");
    let out = parse_tracer(&k);
    assert_eq!(out.tracer, None);
    assert_eq!(out.errors, vec![TracerError::InvalidTransport]);
}

#[test]
fn unknown_tracers() {
    assert_eq!(parse_tracer(&keys(Some("syslog"))).errors, vec![TracerError::UnknownType]);
    assert_eq!(parse_tracer(&keys(None)).errors, vec![TracerError::UnknownType]);
}

#[test]
fn tracers_in_order() {
    let config = vec![keys(Some("stdout")), keys(Some("nope")), keys(Some("journal"))];
    let (tracers, errors) = Tracers::parse(&config);
    assert_eq!(
        tracers.tracers,
        vec![
            Tracer::Stdout { level: LogLevel::Info, ansi: true },
            Tracer::Journal { level: LogLevel::Info },
        ]
    );
    assert_eq!(errors, vec![(1, TracerError::UnknownType)]);
}
