use vstd::prelude::*;

pub mod api;
pub mod cover;
pub mod db;
pub mod dedup;
pub mod discovery;
pub mod errors;
pub mod ext_icon;
pub mod gc;
pub mod ingest;
pub mod media;
pub mod metrics;
pub mod notify;
pub mod text;
pub mod unicode;
pub mod phase_f;
pub mod phash;
pub mod replies;
pub mod rounding;
pub mod routes;
pub mod sweep;
pub mod types;
pub mod mangadex;

verus! {

} // verus!
