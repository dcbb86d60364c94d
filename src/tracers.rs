use vstd::prelude::*;

use std::str::FromStr;

use vstd::string::StrSliceExecFns;

use crate::text::{
    eq_ignore_ascii_case, first_occurrence, fn_split_once, fn_trim, occurs_at, same_text, trim_of,
};

verus! {

/// How verbose a tracer is.
#[derive(Clone, Copy, Debug, PartialEq, Eq, Structural)]
pub enum LogLevel {
    Error,
    Warn,
    Info,
    Debug,
    Trace,
}

/// The level that tracing reads from a text, numbered as tracing numbers its
/// levels: 1 error, 2 warn, 3 info, 4 debug, 5 trace.
pub uninterp spec fn tracing_level_number(s: Seq<char>) -> Option<u8>;

pub open spec fn level_of_number(n: Option<u8>) -> Option<LogLevel> {
    match n {
        Some(1) => Some(LogLevel::Error),
        Some(2) => Some(LogLevel::Warn),
        Some(3) => Some(LogLevel::Info),
        Some(4) => Some(LogLevel::Debug),
        Some(5) => Some(LogLevel::Trace),
        _ => None,
    }
}

/// Relies on tracing::Level::from_str: a level name in any ASCII case, or
/// the level's number.
#[verifier::external_body]
fn parse_level(s: &str) -> (r: Option<LogLevel>)
    ensures
        r == level_of_number(tracing_level_number(s@)),
        eq_ignore_ascii_case(s@, "error"@) ==> r == Some(LogLevel::Error),
        eq_ignore_ascii_case(s@, "warn"@) ==> r == Some(LogLevel::Warn),
        eq_ignore_ascii_case(s@, "info"@) ==> r == Some(LogLevel::Info),
        eq_ignore_ascii_case(s@, "debug"@) ==> r == Some(LogLevel::Debug),
        eq_ignore_ascii_case(s@, "trace"@) ==> r == Some(LogLevel::Trace),
{
    match tracing::Level::from_str(s) {
        Ok(tracing::Level::ERROR) => Some(LogLevel::Error),
        Ok(tracing::Level::WARN) => Some(LogLevel::Warn),
        Ok(tracing::Level::INFO) => Some(LogLevel::Info),
        Ok(tracing::Level::DEBUG) => Some(LogLevel::Debug),
        Ok(tracing::Level::TRACE) => Some(LogLevel::Trace),
        Ok(_) | Err(_) => None,
    }
}

/// When a log file is rolled over.
#[derive(Clone, Copy, Debug, PartialEq, Eq, Structural)]
pub enum Rotation {
    Daily,
    Hourly,
    Minutely,
    Never,
}

/// One configured tracer, as plain settings.
#[derive(Debug, PartialEq)]
pub enum Tracer {
    Stdout { level: LogLevel, ansi: bool },
    Log { level: LogLevel, path: String, prefix: String, rotate: Rotation, ansi: bool },
    Journal { level: LogLevel },
    OtelGrpc { level: LogLevel, endpoint: Option<String> },
    OtelHttp { level: LogLevel, endpoint: String, headers: Vec<(String, String)> },
}

/// A problem met in a tracer's settings.
#[derive(Clone, Copy, Debug, PartialEq, Eq, Structural)]
pub enum TracerError {
    InvalidLevel,
    MissingPath,
    InvalidRotate,
    MissingTransport,
    InvalidTransport,
    MissingEndpoint,
    InvalidHeader,
    UnknownType,
}

/// The settings of one tracer as the configuration gives them; a missing key
/// is `None`.
pub struct TracerKeys {
    pub kind: Option<String>,
    pub level: Option<String>,
    pub path: Option<String>,
    pub prefix: Option<String>,
    pub rotate: Option<String>,
    pub ansi: Option<String>,
    pub transport: Option<String>,
    pub endpoint: Option<String>,
    pub headers: Vec<String>,
}

/// The text of an optional key, or the empty text.
pub open spec fn text_or_empty(v: Option<String>) -> Seq<char> {
    match v {
        Some(s) => s@,
        None => Seq::empty(),
    }
}

/// The level of a tracer: `info` where none is given or it cannot be read.
pub open spec fn level_spec(k: TracerKeys) -> LogLevel {
    match k.level {
        None => LogLevel::Info,
        Some(s) => match level_of_number(tracing_level_number(s@)) {
            Some(l) => l,
            None => LogLevel::Info,
        },
    }
}

/// Colours stay on unless the key says `false`.
pub open spec fn ansi_spec(k: TracerKeys) -> bool {
    !(k.ansi matches Some(s) && s@ == "false"@)
}

pub open spec fn rotation_spec(k: TracerKeys) -> Option<Rotation> {
    match k.rotate {
        None => Some(Rotation::Daily),
        Some(s) => if s@ == "daily"@ {
            Some(Rotation::Daily)
        } else if s@ == "hourly"@ {
            Some(Rotation::Hourly)
        } else if s@ == "minutely"@ {
            Some(Rotation::Minutely)
        } else if s@ == "never"@ {
            Some(Rotation::Never)
        } else {
            None
        },
    }
}

/// The kind of tracer that the settings describe.
#[derive(Clone, Copy, Debug, PartialEq, Eq, Structural)]
pub enum TracerKind {
    Log,
    Stdout,
    Otel,
    Journal,
    Unknown,
}

pub open spec fn kind_spec(k: TracerKeys) -> TracerKind {
    let t = text_or_empty(k.kind);
    if t == "log"@ {
        TracerKind::Log
    } else if t == "stdout"@ {
        TracerKind::Stdout
    } else if t == "otel"@ || t == "open-telemetry"@ {
        TracerKind::Otel
    } else if t == "journal"@ {
        TracerKind::Journal
    } else {
        TracerKind::Unknown
    }
}

/// A header line `name: value` read into its trimmed halves, split at the
/// first colon.
pub open spec fn header_read(line: Seq<char>, h: (String, String)) -> bool {
    exists|i: int|
        #[trigger] first_occurrence(line, ":"@, i) && trim_of(line.subrange(0, i), h.0@) && trim_of(
            line.subrange(i + 1, line.len() as int),
            h.1@,
        )
}

pub open spec fn has_colon(line: Seq<char>) -> bool {
    exists|i: int| occurs_at(line, ":"@, i)
}

/// The headers read from `lines`: those before the first line without a
/// colon, and whether such a line was met.
pub open spec fn headers_read(lines: Seq<String>, hs: Seq<(String, String)>, bad: bool) -> bool {
    &&& hs.len() <= lines.len()
    &&& forall|k: int| 0 <= k < hs.len() ==> header_read(lines[k]@, #[trigger] hs[k])
    &&& bad == (hs.len() < lines.len())
    &&& bad ==> !has_colon(lines[hs.len() as int]@)
}

/// Reads the headers of an HTTP exporter, stopping at the first bad line.
pub fn read_headers(lines: &Vec<String>) -> (r: (Vec<(String, String)>, bool))
    ensures
        headers_read(lines@, r.0@, r.1),
{
    let mut hs: Vec<(String, String)> = Vec::new();
    let mut i: usize = 0;
    while i < lines.len()
        invariant
            i <= lines@.len(),
            hs@.len() == i,
            forall|k: int| 0 <= k < i ==> header_read(lines@[k]@, #[trigger] hs@[k]),
        decreases lines@.len() - i,
    {
        match fn_split_once(lines[i].as_str(), ":") {
            Some((name, value)) => {
                let n = fn_trim(name.as_str());
                let v = fn_trim(value.as_str());
                proof {
                    reveal_strlit(":");
                }
                hs.push((n, v));
                proof {
                    assert(header_read(lines@[i as int]@, hs@[i as int]));
                }
            },
            None => {
                proof {
                    reveal_strlit(":");
                }
                return (hs, true);
            },
        }
        i = i + 1;
    }
    (hs, false)
}

/// The level error, if the level key cannot be read.
pub open spec fn level_errors(k: TracerKeys) -> Seq<TracerError> {
    if k.level is Some && level_of_number(tracing_level_number(text_or_empty(k.level))) is None {
        seq![TracerError::InvalidLevel]
    } else {
        Seq::empty()
    }
}

/// The tracer that the settings `k` describe, if any, and the problems met
/// on the way, in the order they are met.
pub open spec fn tracer_read(k: TracerKeys, t: Option<Tracer>, errs: Seq<TracerError>) -> bool {
    let lvl = level_spec(k);
    let lerr = level_errors(k);
    match kind_spec(k) {
        TracerKind::Log => match k.path {
            None => t is None && errs == lerr.push(TracerError::MissingPath),
            Some(p) => {
                &&& t matches Some(Tracer::Log { level, path, prefix, rotate, ansi }) && level == lvl
                    && path@ == p@ && prefix@ == (match k.prefix {
                    Some(x) => x@,
                    None => "stalwart"@,
                }) && rotate == (match rotation_spec(k) {
                    Some(r) => r,
                    None => Rotation::Daily,
                }) && ansi == ansi_spec(k)
                &&& errs == if rotation_spec(k) is None {
                    lerr.push(TracerError::InvalidRotate)
                } else {
                    lerr
                }
            },
        },
        TracerKind::Stdout => t == Some(Tracer::Stdout { level: lvl, ansi: ansi_spec(k) }) && errs
            == lerr,
        TracerKind::Journal => t == Some(Tracer::Journal { level: lvl }) && errs == lerr,
        TracerKind::Unknown => t is None && errs == lerr.push(TracerError::UnknownType),
        TracerKind::Otel => match k.transport {
            None => t is None && errs == lerr.push(TracerError::MissingTransport),
            Some(tr) => if tr@ == "gprc"@ {
                &&& t matches Some(Tracer::OtelGrpc { level, endpoint }) && level == lvl && (match (
                    endpoint,
                    k.endpoint,
                ) {
                    (Some(a), Some(b)) => a@ == b@,
                    (None, None) => true,
                    _ => false,
                })
                &&& errs == lerr
            } else if tr@ == "http"@ {
                match k.endpoint {
                    None => t is None && errs == lerr.push(TracerError::MissingEndpoint),
                    Some(e) => t matches Some(Tracer::OtelHttp { level, endpoint, headers })
                        && level == lvl && endpoint@ == e@ && exists|bad: bool|
                        #[trigger] headers_read(k.headers@, headers@, bad) && errs == if bad {
                            lerr.push(TracerError::InvalidHeader)
                        } else {
                            lerr
                        },
                }
            } else if tr@.len() == 0 {
                t is None && errs == lerr
            } else {
                t is None && errs == lerr.push(TracerError::InvalidTransport)
            },
        },
    }
}

/// The tracer read from one tracer's settings, and the problems met.
pub struct TracerOutcome {
    pub tracer: Option<Tracer>,
    pub errors: Vec<TracerError>,
}

fn copy_text(v: &Option<String>) -> (r: Option<String>)
    ensures
        match (r, *v) {
            (Some(a), Some(b)) => a@ == b@,
            (None, None) => true,
            _ => false,
        },
{
    match v {
        Some(s) => Some(s.clone()),
        None => None,
    }
}

/// Reads one tracer's settings. A level that cannot be read falls back to
/// `info`; a rotation that cannot be read falls back to daily; colours stay on
/// unless turned off. A log tracer needs a path, an HTTP exporter an
/// endpoint; header lines are read up to the first one without a colon.
pub fn parse_tracer(k: &TracerKeys) -> (r: TracerOutcome)
    ensures
        tracer_read(*k, r.tracer, r.errors@),
{
    let mut errors: Vec<TracerError> = Vec::new();
    let level = match &k.level {
        None => LogLevel::Info,
        Some(s) => match parse_level(s.as_str()) {
            Some(l) => l,
            None => {
                errors.push(TracerError::InvalidLevel);
                LogLevel::Info
            },
        },
    };
    proof {
        assert(errors@ =~= level_errors(*k));
    }
    let ansi = match &k.ansi {
        Some(s) => !same_text(s.as_str(), "false"),
        None => true,
    };
    let kind: &str = match &k.kind {
        Some(s) => s.as_str(),
        None => "",
    };
    proof {
        reveal_strlit("");
        assert(kind@ == text_or_empty(k.kind));
        assert(level == level_spec(*k));
        assert(ansi == ansi_spec(*k));
    }
    if same_text(kind, "log") {
        match &k.path {
            None => {
                errors.push(TracerError::MissingPath);
                TracerOutcome { tracer: None, errors }
            },
            Some(p) => {
                let prefix = match &k.prefix {
                    Some(x) => x.clone(),
                    None => "stalwart".to_string(),
                };
                let rotate = match &k.rotate {
                    None => Rotation::Daily,
                    Some(x) => if same_text(x.as_str(), "daily") {
                        Rotation::Daily
                    } else if same_text(x.as_str(), "hourly") {
                        Rotation::Hourly
                    } else if same_text(x.as_str(), "minutely") {
                        Rotation::Minutely
                    } else if same_text(x.as_str(), "never") {
                        Rotation::Never
                    } else {
                        errors.push(TracerError::InvalidRotate);
                        Rotation::Daily
                    },
                };
                let tracer = Some(Tracer::Log { level, path: p.clone(), prefix, rotate, ansi });
                proof {
                    reveal_strlit("stalwart");
                    assert(kind_spec(*k) == TracerKind::Log);
                    assert(level == level_spec(*k));
                    assert(ansi == ansi_spec(*k));
                    assert(tracer_read(*k, tracer, errors@));
                }
                TracerOutcome { tracer, errors }
            },
        }
    } else if same_text(kind, "stdout") {
        proof {
            assert(kind_spec(*k) == TracerKind::Stdout);
        }
        TracerOutcome { tracer: Some(Tracer::Stdout { level, ansi }), errors }
    } else if same_text(kind, "otel") || same_text(kind, "open-telemetry") {
        match &k.transport {
            None => {
                errors.push(TracerError::MissingTransport);
                TracerOutcome { tracer: None, errors }
            },
            Some(tr) => {
                if same_text(tr.as_str(), "gprc") {
                    let endpoint = copy_text(&k.endpoint);
                    proof {
                        assert(kind_spec(*k) == TracerKind::Otel);
                    }
                    let tracer = Some(Tracer::OtelGrpc { level, endpoint });
                    proof {
                        reveal_strlit("gprc");
                        assert(tracer_read(*k, tracer, errors@));
                    }
                    TracerOutcome { tracer, errors }
                } else if same_text(tr.as_str(), "http") {
                    match &k.endpoint {
                        None => {
                            errors.push(TracerError::MissingEndpoint);
                            TracerOutcome { tracer: None, errors }
                        },
                        Some(e) => {
                            let (headers, bad) = read_headers(&k.headers);
                            if bad {
                                errors.push(TracerError::InvalidHeader);
                            }
                            let tracer = Tracer::OtelHttp { level, endpoint: e.clone(), headers };
                            proof {
                                assert(kind_spec(*k) == TracerKind::Otel);
                                assert(headers_read(k.headers@, headers@, bad));
                            }
                            proof {
                                reveal_strlit("gprc");
                                reveal_strlit("http");
                                assert(tr@ != "gprc"@);
                                assert(kind_spec(*k) == TracerKind::Otel);
                                assert(errors@ == if bad {
                                    level_errors(*k).push(TracerError::InvalidHeader)
                                } else {
                                    level_errors(*k)
                                });
                                if let Tracer::OtelHttp { headers: hh, .. } = &tracer {
                                    assert(headers_read(k.headers@, hh@, bad));
                                }
                                assert(tracer_read(*k, Some(tracer), errors@));
                            }
                            TracerOutcome { tracer: Some(tracer), errors }
                        },
                    }
                } else if tr.as_str().unicode_len() == 0 {
                    TracerOutcome { tracer: None, errors }
                } else {
                    errors.push(TracerError::InvalidTransport);
                    TracerOutcome { tracer: None, errors }
                }
            },
        }
    } else if same_text(kind, "journal") {
        proof {
            assert(kind_spec(*k) == TracerKind::Journal);
        }
        TracerOutcome { tracer: Some(Tracer::Journal { level }), errors }
    } else {
        errors.push(TracerError::UnknownType);
        proof {
            assert(kind_spec(*k) == TracerKind::Unknown);
        }
        TracerOutcome { tracer: None, errors }
    }
}

/// The tracers that were built, in order.
pub open spec fn built_tracers(outs: Seq<(Option<Tracer>, Seq<TracerError>)>) -> Seq<Tracer>
    decreases outs.len(),
{
    if outs.len() == 0 {
        Seq::empty()
    } else {
        let prev = built_tracers(outs.drop_last());
        match outs.last().0 {
            Some(t) => prev.push(t),
            None => prev,
        }
    }
}

/// Every problem met, in order, with the position of the settings it was met in.
pub open spec fn placed_errors(outs: Seq<(Option<Tracer>, Seq<TracerError>)>) -> Seq<
    (usize, TracerError),
>
    decreases outs.len(),
{
    if outs.len() == 0 {
        Seq::empty()
    } else {
        let n = (outs.len() - 1) as usize;
        placed_errors(outs.drop_last()) + outs.last().1.map_values(|e: TracerError| (n, e))
    }
}

/// Every configured tracer, read in the order the configuration lists them.
pub struct Tracers {
    pub tracers: Vec<Tracer>,
}

impl Tracers {
    /// Reads the tracers from the settings of each; those that cannot be
    /// built are left out. The problems met come back in order, each with the
    /// position of the settings it was met in.
    pub fn parse(config: &Vec<TracerKeys>) -> (r: (Tracers, Vec<(usize, TracerError)>))
        ensures
            exists|outs: Seq<(Option<Tracer>, Seq<TracerError>)>|
                {
                    &&& outs.len() == config@.len()
                    &&& (forall|i: int|
                        0 <= i < outs.len() ==> tracer_read(
                            config@[i],
                            (#[trigger] outs[i]).0,
                            outs[i].1,
                        ))
                    &&& r.0.tracers@ == built_tracers(outs)
                    &&& r.1@ == placed_errors(outs)
                },
    {
        let mut tracers: Vec<Tracer> = Vec::new();
        let mut errors: Vec<(usize, TracerError)> = Vec::new();
        let ghost mut outs: Seq<(Option<Tracer>, Seq<TracerError>)> = Seq::empty();
        let mut i: usize = 0;
        while i < config.len()
            invariant
                i <= config@.len(),
                outs.len() == i,
                forall|k: int|
                    0 <= k < outs.len() ==> tracer_read(config@[k], (#[trigger] outs[k]).0, outs[k].1),
                tracers@ == built_tracers(outs),
                errors@ == placed_errors(outs),
            decreases config@.len() - i,
        {
            let out = parse_tracer(&config[i]);
            let TracerOutcome { tracer, errors: errs } = out;
            let ghost item = (tracer, errs@);
            let ghost next = outs.push(item);
            let ghost tail = errs@.map_values(|e: TracerError| (i, e));
            let ghost start = errors@;
            proof {
                assert(next.drop_last() =~= outs);
            }
            let mut j: usize = 0;
            while j < errs.len()
                invariant
                    j <= errs@.len(),
                    tail == errs@.map_values(|e: TracerError| (i, e)),
                    errors@ == start + tail.take(j as int),
                decreases errs@.len() - j,
            {
                errors.push((i, errs[j]));
                j = j + 1;
                proof {
                    assert(errors@ =~= start + tail.take(j as int));
                }
            }
            proof {
                assert(tail.take(j as int) =~= tail);
                assert(errors@ == placed_errors(next));
            }
            match tracer {
                Some(t) => tracers.push(t),
                None => {},
            }
            proof {
                outs = next;
            }
            i = i + 1;
        }
        (Tracers { tracers }, errors)
    }
}

} // verus!
