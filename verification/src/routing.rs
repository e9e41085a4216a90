//! Route tables: which request, by method and path, goes to which handler.

use vstd::prelude::*;

verus! {

/// The method of a request.
#[derive(Debug, Clone, Copy, PartialEq, Eq, Structural)]
pub enum Method {
    Get,
    Post,
}

/// One route: requests with this method and a path of this shape go to the
/// handler of this name.
#[derive(Debug, Clone, Copy)]
pub struct Route {
    pub method: Method,
    pub path: &'static str,
    pub handler: &'static str,
}

pub ghost struct RouteView {
    pub method: Method,
    pub path: Seq<char>,
    pub handler: Seq<char>,
}

impl View for Route {
    type V = RouteView;

    open spec fn view(&self) -> RouteView {
        RouteView { method: self.method, path: self.path@, handler: self.handler@ }
    }
}

/// A route for reading.
pub open spec fn get_route(path: Seq<char>, handler: Seq<char>) -> RouteView {
    RouteView { method: Method::Get, path, handler }
}

/// A route for writing.
pub open spec fn post_route(path: Seq<char>, handler: Seq<char>) -> RouteView {
    RouteView { method: Method::Post, path, handler }
}

/// The routes of one collection: its list, the page and the request that
/// create a document, and the pages and requests for one document.
pub open spec fn collection_routes(delete: Seq<char>) -> Seq<RouteView> {
    seq![
        get_route("/?<q>"@, "index"@),
        get_route("/create"@, "create_page"@),
        post_route("/create"@, "create"@),
        get_route("/edit/<id>"@, "edit"@),
        post_route("/update/<id>"@, "update"@),
        post_route("/delete/<id>"@, delete),
        get_route("/read/<id>"@, "read"@),
    ]
}

/// The routes of one collection, with the given name of the handler that
/// deletes and the given path of the list.
pub fn table(index_path: &'static str, delete: &'static str) -> (out: Vec<Route>)
    ensures
        out@.len() == 7,
        crate::seqs::views(out@) == collection_routes(delete@).update(
            0,
            get_route(index_path@, "index"@),
        ),
{
    let mut out: Vec<Route> = Vec::new();
    out.push(Route { method: Method::Get, path: index_path, handler: "index" });
    out.push(Route { method: Method::Get, path: "/create", handler: "create_page" });
    out.push(Route { method: Method::Post, path: "/create", handler: "create" });
    out.push(Route { method: Method::Get, path: "/edit/<id>", handler: "edit" });
    out.push(Route { method: Method::Post, path: "/update/<id>", handler: "update" });
    out.push(Route { method: Method::Post, path: "/delete/<id>", handler: delete });
    out.push(Route { method: Method::Get, path: "/read/<id>", handler: "read" });
    proof {
        assert(crate::seqs::views(out@) =~= collection_routes(delete@).update(
            0,
            get_route(index_path@, "index"@),
        ));
    }
    out
}

} // verus!
