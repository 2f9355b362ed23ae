use vstd::prelude::*;
use crate::attributes::{AttributeGraph, AttributeView, ValueView, lookup};

verus! {

/// Whether a block property must be given.
#[derive(Debug, Clone, Copy, PartialEq, Eq, Structural)]
pub enum Requirement {
    Required,
    Optional,
}

pub open spec fn query_view(q: Seq<(String, Requirement)>) -> Seq<(Seq<char>, Requirement)> {
    q.map_values(|p: (String, Requirement)| (p.0@, p.1))
}

/// The properties an app host reads.
pub open spec fn app_host_query() -> Seq<(Seq<char>, Requirement)> {
    seq![
        ("app_host"@, Requirement::Required),
        ("shutdown_timeout_ms"@, Requirement::Optional),
        ("tls_key"@, Requirement::Optional),
        ("tls_crt"@, Requirement::Optional),
    ]
}

/// The properties a static file server reads: those of its app host, then its own.
pub open spec fn static_files_query() -> Seq<(Seq<char>, Requirement)> {
    app_host_query() + seq![
        ("static_files"@, Requirement::Required),
        ("api_prefix"@, Requirement::Required),
        ("work_dir"@, Requirement::Optional),
        ("index_html"@, Requirement::Optional),
    ]
}

fn push_property(q: &mut Vec<(String, Requirement)>, name: &str, r: Requirement)
    ensures
        query_view(final(q)@) == query_view(old(q)@).push((name@, r)),
{
    q.push((name.to_owned(), r));
    assert(query_view(q@) =~= query_view(old(q)@).push((name@, r)));
}

/// Host of a web app.
#[derive(Debug, Clone, Copy, Default)]
pub struct AppHost;

impl AppHost {
    /// Symbol of the plugin.
    pub fn symbol() -> (s: &'static str)
        ensures
            s@ == "app_host"@,
    {
        "app_host"
    }

    /// The properties an app host reads.
    pub fn query() -> (q: Vec<(String, Requirement)>)
        ensures
            query_view(q@) == app_host_query(),
    {
        let mut q: Vec<(String, Requirement)> = Vec::new();
        push_property(&mut q, "app_host", Requirement::Required);
        push_property(&mut q, "shutdown_timeout_ms", Requirement::Optional);
        push_property(&mut q, "tls_key", Requirement::Optional);
        push_property(&mut q, "tls_crt", Requirement::Optional);
        assert(query_view(q@) =~= app_host_query());
        q
    }
}

/// Static file server: the directory it serves, the prefix of its routes, and
/// the file a request for the prefix itself is answered with.
#[derive(Debug, Clone, Default)]
pub struct StaticFiles {
    pub work_dir: String,
    pub api_prefix: String,
    pub index_html: Option<String>,
}

pub struct StaticFilesView {
    pub work_dir: Seq<char>,
    pub api_prefix: Seq<char>,
    pub index_html: Option<Seq<char>>,
}

impl View for StaticFiles {
    type V = StaticFilesView;

    open spec fn view(&self) -> StaticFilesView {
        StaticFilesView {
            work_dir: self.work_dir@,
            api_prefix: self.api_prefix@,
            index_html: match self.index_html { Some(t) => Some(t@), None => None },
        }
    }
}

/// The value of the attribute named `name` when it holds the given kind.
pub open spec fn symbol_of(attrs: Seq<AttributeView>, name: Seq<char>) -> Option<Seq<char>> {
    match lookup(attrs, name) {
        Some(a) => match a.value {
            ValueView::Symbol(s) => Some(s),
            _ => None,
        },
        None => None,
    }
}

pub open spec fn text_value_of(attrs: Seq<AttributeView>, name: Seq<char>) -> Option<Seq<char>> {
    match lookup(attrs, name) {
        Some(a) => match a.value {
            ValueView::TextBuffer(s) => Some(s),
            _ => None,
        },
        None => None,
    }
}

impl StaticFiles {
    /// Symbol of the plugin.
    pub fn symbol() -> (s: &'static str)
        ensures
            s@ == "static_files"@,
    {
        "static_files"
    }

    /// Creates the server for a context: its state must name the prefix of its
    /// routes (`api_prefix`); the file for the prefix itself (`index_html`) is
    /// only kept when the context has a work directory, and without one the
    /// server serves the empty path.
    pub fn create(state: &AttributeGraph, work_dir: Option<String>) -> (s: StaticFiles)
        requires
            symbol_of(state@.attributes, "api_prefix"@) is Some,
        ensures
            s@.api_prefix == symbol_of(state@.attributes, "api_prefix"@).unwrap(),
            s@.work_dir == (match work_dir { Some(w) => w@, None => Seq::empty() }),
            s@.index_html == (match work_dir {
                Some(_) => text_value_of(state@.attributes, "index_html"@),
                None => None::<Seq<char>>,
            }),
    {
        let api_prefix = match state.find_symbol("api_prefix") {
            Some(p) => p,
            None => vstd::pervasive::unreached(),
        };
        match work_dir {
            Some(w) => {
                let index_html = state.find_text("index_html");
                StaticFiles { work_dir: w, api_prefix, index_html }
            },
            None => StaticFiles { work_dir: String::new(), api_prefix, index_html: None },
        }
    }

    /// The path the files are served under: `/{api_prefix}`.
    pub fn route_prefix(&self) -> (p: String)
        ensures
            p@ == "/"@ + self@.api_prefix,
    {
        let mut p = "/".to_owned();
        p.append(self.api_prefix.as_str());
        p
    }

    /// The properties a static file server reads.
    pub fn query() -> (q: Vec<(String, Requirement)>)
        ensures
            query_view(q@) == static_files_query(),
    {
        let mut q = AppHost::query();
        push_property(&mut q, "static_files", Requirement::Required);
        push_property(&mut q, "api_prefix", Requirement::Required);
        push_property(&mut q, "work_dir", Requirement::Optional);
        push_property(&mut q, "index_html", Requirement::Optional);
        assert(query_view(q@) =~= static_files_query());
        q
    }
}

/// A test block object, with a name.
#[derive(Debug, Clone, Default)]
pub struct Test {
    pub name: String,
}

impl Test {
    /// Parses a test object: whatever the text, its name is empty.
    pub fn from_text(_text: &str) -> (t: Test)
        ensures
            t.name@ == Seq::<char>::empty(),
    {
        Test { name: String::new() }
    }
}

} // verus!
