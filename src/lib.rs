// The outbound delivery core of a mail transfer agent, with the helpers that
// surround it.
//
// - `retry`: delivery units and the retry/backoff policy.
// - `queue`: the store of delivery units and its claim/release protocol.
// - `message`: splitting an accepted message into per-domain units.
// - `executor`: classifying transport replies across candidate hosts.
// - `dns`: the answer cache and the order of mail exchangers.
// - `bayes`: the token cache in front of the spam classifier's store.
// - `text`: string functions offered to filtering scripts.
// - `tracers`: reading tracer settings.

pub mod bayes;
pub mod dns;
pub mod executor;
pub mod message;
pub mod queue;
pub mod retry;
pub mod text;
pub mod tracers;
