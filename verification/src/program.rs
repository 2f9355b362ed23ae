use vstd::prelude::*;

verus! {

/// Where a host is created from.
#[derive(Debug, Clone)]
pub enum HostSource {
    /// A runmd file on disk,
    Path(String),
    /// A runmd document to fetch,
    Url(String),
}

/// The source a host is created from: a path alone or a url alone; given both
/// or neither, there is none.
pub fn host_source(runmd_path: Option<String>, url: Option<String>) -> (s: Option<HostSource>)
    ensures
        match (runmd_path, url) {
            (Some(p), None) => s matches Some(HostSource::Path(x)) && x@ == p@,
            (None, Some(u)) => s matches Some(HostSource::Url(x)) && x@ == u@,
            _ => s is None,
        },
{
    match (runmd_path, url) {
        (Some(p), None) => Some(HostSource::Path(p)),
        (None, Some(u)) => Some(HostSource::Url(u)),
        _ => None,
    }
}

/// The default log directive of the program: debug output when asked for,
/// informational output otherwise.
pub fn log_directive(debug: bool) -> (d: &'static str)
    ensures
        debug ==> d@ == "lifec=debug"@,
        !debug ==> d@ == "lifec=info"@,
{
    if debug { "lifec=debug" } else { "lifec=info" }
}

} // verus!
