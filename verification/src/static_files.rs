//! Static files: whether the application serves them, and from where.

use crate::config::{or_default, value_or};
use crate::routing::{get_route, Method, Route};
use crate::seqs::views;
use vstd::prelude::*;
use vstd::string::StringExecFns;

verus! {

/// The route of the static files.
pub fn get_static_routes() -> (out: Vec<Route>)
    ensures
        views(out@) == seq![get_route("/static/<file..>"@, "serve_static"@)],
{
    let mut out: Vec<Route> = Vec::new();
    out.push(Route { method: Method::Get, path: "/static/<file..>", handler: "serve_static" });
    proof {
        assert(views(out@) =~= seq![get_route("/static/<file..>"@, "serve_static"@)]);
    }
    out
}

/// Whether the application serves the static files: it does unless the
/// setting is `false`.
pub fn should_serve_static(setting: Option<String>) -> (out: bool)
    ensures
        out == !(setting matches Some(s) && s@ == "false"@),
{
    match setting {
        Some(s) => !(s == String::from_str("false")),
        None => true,
    }
}

/// The directory of the uploads: the setting, or `uploads` where none is
/// given.
pub fn get_uploads_dir(setting: Option<String>) -> (out: String)
    ensures
        out@ == or_default(setting, "uploads"@),
{
    value_or(setting, "uploads")
}

} // verus!
