//! The settings of the application, with what holds where none is given.

use vstd::prelude::*;
use vstd::string::StringExecFns;

verus! {

/// The settings of the application.
#[derive(Debug, Clone)]
pub struct AppConfig {
    pub mongo_uri: String,
    pub db_name: String,
    pub cache_url: Option<String>,
    pub search_url: Option<String>,
    pub static_dir: String,
    pub serve_static_from_app: bool,
}

/// The given text, or `fallback` where none is given.
pub open spec fn or_default(given: Option<String>, fallback: Seq<char>) -> Seq<char> {
    match given {
        Some(s) => s@,
        None => fallback,
    }
}

/// The given text, or `fallback` where none is given.
pub fn value_or(given: Option<String>, fallback: &str) -> (out: String)
    ensures
        out@ == or_default(given, fallback@),
{
    match given {
        Some(s) => s,
        None => String::from_str(fallback),
    }
}

impl AppConfig {
    /// The settings that the given values make. Where no value is given,
    /// the store is `mongodb://localhost:27017`, its database
    /// `bookreview_dev` and the directory of the static files `./static`.
    /// The application serves the static files itself unless `serve_static`
    /// names something other than `app`.
    pub fn from_values(
        mongo_uri: Option<String>,
        db_name: Option<String>,
        cache_url: Option<String>,
        search_url: Option<String>,
        static_dir: Option<String>,
        serve_static: Option<String>,
    ) -> (out: AppConfig)
        ensures
            out.mongo_uri@ == or_default(mongo_uri, "mongodb://localhost:27017"@),
            out.db_name@ == or_default(db_name, "bookreview_dev"@),
            out.cache_url == cache_url,
            out.search_url == search_url,
            out.static_dir@ == or_default(static_dir, "./static"@),
            out.serve_static_from_app == (or_default(serve_static, "app"@) == "app"@),
    {
        let serve = value_or(serve_static, "app");
        let serve_static_from_app = serve == String::from_str("app");
        AppConfig {
            mongo_uri: value_or(mongo_uri, "mongodb://localhost:27017"),
            db_name: value_or(db_name, "bookreview_dev"),
            cache_url,
            search_url,
            static_dir: value_or(static_dir, "./static"),
            serve_static_from_app,
        }
    }
}

} // verus!
