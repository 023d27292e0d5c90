//! Row types: one throughput sample and one catalog entry, each with a
//! mathematical view used by every contract in the crate.

use vstd::prelude::*;

verus! {

/// One reported throughput measurement: at second `time`, server
/// `server_name` reported `rps` requests per second. Immutable once written.
pub struct DstatLog {
    pub time: i32,
    pub server_name: String,
    pub rps: i32,
}

/// Mathematical view of a [`DstatLog`].
pub ghost struct SampleModel {
    pub time: int,
    pub server_name: Seq<char>,
    pub rps: int,
}

impl View for DstatLog {
    type V = SampleModel;

    open spec fn view(&self) -> SampleModel {
        SampleModel {
            time: self.time as int,
            server_name: self.server_name@,
            rps: self.rps as int,
        }
    }
}

/// One catalog entry: a known server and its metadata. The catalog is
/// reference data maintained outside this crate; queries only read it.
/// `server_name` is the join key against the log.
pub struct DstatServer {
    pub server_id: String,
    pub category: String,
    pub server_name: String,
    pub url: String,
}

/// Mathematical view of a [`DstatServer`].
pub ghost struct ServerModel {
    pub server_id: Seq<char>,
    pub category: Seq<char>,
    pub server_name: Seq<char>,
    pub url: Seq<char>,
}

impl View for DstatServer {
    type V = ServerModel;

    open spec fn view(&self) -> ServerModel {
        ServerModel {
            server_id: self.server_id@,
            category: self.category@,
            server_name: self.server_name@,
            url: self.url@,
        }
    }
}

/// The view of a sequence of samples, element by element.
pub open spec fn logs_view(s: Seq<DstatLog>) -> Seq<SampleModel> {
    s.map_values(|l: DstatLog| l@)
}

/// The view of a sequence of catalog entries, element by element.
pub open spec fn servers_view(s: Seq<DstatServer>) -> Seq<ServerModel> {
    s.map_values(|v: DstatServer| v@)
}

/// An exact copy of a sample. (`Clone` would be derived, but Verus learns
/// nothing from a derived clone; this copy carries a contract.)
pub fn copy_log(l: &DstatLog) -> (r: DstatLog)
    ensures
        r == *l,
{
    DstatLog { time: l.time, server_name: l.server_name.clone(), rps: l.rps }
}

/// An exact copy of a catalog entry, with a contract.
pub fn copy_server(s: &DstatServer) -> (r: DstatServer)
    ensures
        r == *s,
{
    DstatServer {
        server_id: s.server_id.clone(),
        category: s.category.clone(),
        server_name: s.server_name.clone(),
        url: s.url.clone(),
    }
}

} // verus!
