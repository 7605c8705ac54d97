//! The way of a request through the routes of a configuration.

use vstd::prelude::*;

use crate::config::{directive_parts, route_matches, routes_of, Config, ConfigRoute, RouteView};
use crate::reply::{not_found_view, Reply};
use crate::request_context::{
    action_of, directive_fault, directive_step, Action, ActionView, ContextView, Fault, FaultView,
    RequestContext,
};
use crate::uri::{path_of, uri_wf};

verus! {

/// How far a request came.
pub enum Progress {
    /// It goes on.
    Onward(ContextView),
    /// Its way ended with this action.
    Ended(ContextView, ActionView),
    /// It was stopped.
    Stopped(ContextView, FaultView),
}

/// What comes of carrying out directives one after the other until one ends the way.
pub open spec fn run_directives(ctx: ContextView, directives: Seq<Seq<char>>) -> Progress
    decreases directives.len(),
{
    if directives.len() == 0 {
        Progress::Onward(ctx)
    } else {
        let (name, param) = directive_parts(directives[0]);
        match directive_fault(ctx, name, param) {
            Some(f) => Progress::Stopped(ctx, f),
            None => {
                let (next, action) = directive_step(ctx, name, param);
                match action {
                    Some(a) => Progress::Ended(next, a),
                    None => run_directives(next, directives.drop_first()),
                }
            },
        }
    }
}

/// What comes of going through routes one after the other. A route is for the path that the
/// request has when it is reached.
pub open spec fn run_routes(ctx: ContextView, routes: Seq<RouteView>) -> Progress
    decreases routes.len(),
{
    if routes.len() == 0 {
        Progress::Onward(ctx)
    } else if route_matches(routes[0].matcher, path_of(ctx.req.uri)) {
        match run_directives(ctx, routes[0].directive) {
            Progress::Onward(next) => run_routes(next, routes.drop_first()),
            other => other,
        }
    } else {
        run_routes(ctx, routes.drop_first())
    }
}

/// What is done for a request that goes through routes, and what is left of it. A request whose way
/// does not end on them gets the reply that there is nothing for it.
pub open spec fn handled(ctx: ContextView, routes: Seq<RouteView>) -> (
    ContextView,
    Result<ActionView, FaultView>,
) {
    match run_routes(ctx, routes) {
        Progress::Onward(next) => (next, Ok(ActionView::Reply(not_found_view()))),
        Progress::Ended(next, action) => (next, Ok(action)),
        Progress::Stopped(next, fault) => (next, Err(fault)),
    }
}

/// Takes a request through the routes. A request whose way does not end on them gets the reply
/// that there is nothing for it.
pub fn handler(config: &Config, ctx: &mut RequestContext) -> (r: Result<Action, Fault>)
    ensures
        match run_routes(old(ctx)@, routes_of(*config)) {
            Progress::Onward(next) => {
                &&& final(ctx)@ == next
                &&& r is Ok && r->Ok_0@ == ActionView::Reply(not_found_view())
            },
            Progress::Ended(next, action) => {
                &&& final(ctx)@ == next
                &&& r is Ok && r->Ok_0@ == action
            },
            Progress::Stopped(next, fault) => {
                &&& final(ctx)@ == next
                &&& r is Err && r->Err_0@ == fault
            },
        },
        final(ctx)@ == handled(old(ctx)@, routes_of(*config)).0,
        r is Ok <==> handled(old(ctx)@, routes_of(*config)).1 is Ok,
        r matches Ok(action) ==> handled(old(ctx)@, routes_of(*config)).1->Ok_0 == action@,
        r matches Err(fault) ==> handled(old(ctx)@, routes_of(*config)).1->Err_0 == fault@,
        uri_wf(old(ctx)@.req.uri) ==> uri_wf(final(ctx)@.req.uri),
{
    let ghost routes = routes_of(*config);
    let ghost progress = run_routes(ctx@, routes);
    let ghost wf = uri_wf(ctx@.req.uri);
    let mut i: usize = 0;
    assert(routes.skip(0) == routes);
    while i < config.routes.len()
        invariant
            i <= config.routes@.len(),
            routes == routes_of(*config),
            progress == run_routes(old(ctx)@, routes),
            progress == run_routes(ctx@, routes.skip(i as int)),
            wf == uri_wf(old(ctx)@.req.uri),
            wf ==> uri_wf(ctx@.req.uri),
        decreases config.routes@.len() - i,
    {
        let route = &config.routes[i];
        assert(routes[i as int] == route@);
        assert(routes.skip(i as int)[0] == route@);
        assert(routes.skip(i as int).drop_first() == routes.skip(i + 1));
        if route.is_match(ctx.req.uri.path()) {
            let ghost directives = route@.directive;
            let ghost part = run_directives(ctx@, directives);
            let mut j: usize = 0;
            assert(directives.skip(0) == directives);
            while j < route.directive.len()
                invariant
                    i < config.routes@.len(),
                    j <= route.directive@.len(),
                    routes == routes_of(*config),
                    progress == run_routes(old(ctx)@, routes),
                    directives == route@.directive,
                    part == run_directives(ctx@, directives.skip(j as int)),
                    progress == match part {
                        Progress::Onward(next) => run_routes(next, routes.skip(i + 1)),
                        other => other,
                    },
                    wf == uri_wf(old(ctx)@.req.uri),
                    wf ==> uri_wf(ctx@.req.uri),
                decreases route.directive@.len() - j,
            {
                let ghost rest = directives.skip(j as int);
                assert(rest[0] == route.directive@[j as int]@);
                assert(rest.drop_first() == directives.skip(j + 1));
                let directive = ConfigRoute::parse_directive(route.directive[j].as_str());
                match ctx.try_exec(directive) {
                    Ok(Some(action)) => {
                        return Ok(action);
                    },
                    Ok(None) => {},
                    Err(fault) => {
                        return Err(fault);
                    },
                }
                j += 1;
            }
            assert(directives.skip(j as int) == Seq::<Seq<char>>::empty());
        }
        i += 1;
    }
    assert(routes.skip(i as int) == Seq::<RouteView>::empty());
    Ok(Action::Reply(Reply::not_found()))
}

/// A request whose path no route is for passes them unchanged.
pub proof fn law_no_route_no_change(ctx: ContextView, routes: Seq<RouteView>)
    requires
        forall|i: int|
            0 <= i < routes.len() ==> !route_matches(
                #[trigger] routes[i].matcher,
                path_of(ctx.req.uri),
            ),
    ensures
        run_routes(ctx, routes) == Progress::Onward(ctx),
    decreases routes.len(),
{
    if routes.len() > 0 {
        assert(!route_matches(routes[0].matcher, path_of(ctx.req.uri)));
        assert forall|i: int| 0 <= i < routes.drop_first().len() implies !route_matches(
            #[trigger] routes.drop_first()[i].matcher,
            path_of(ctx.req.uri),
        ) by {
            assert(routes.drop_first()[i] == routes[i + 1]);
        }
        law_no_route_no_change(ctx, routes.drop_first());
    }
}

/// Routes are taken in their order: what comes of two lists of routes, one behind the other, is
/// what comes of the second for a request that the first lets pass.
pub proof fn law_routes_in_order(ctx: ContextView, first: Seq<RouteView>, second: Seq<RouteView>)
    ensures
        run_routes(ctx, first + second) == match run_routes(ctx, first) {
            Progress::Onward(next) => run_routes(next, second),
            other => other,
        },
    decreases first.len(),
{
    let all = first + second;
    if first.len() == 0 {
        assert(all == second);
    } else {
        assert(all[0] == first[0]);
        assert(all.drop_first() == first.drop_first() + second);
        if route_matches(first[0].matcher, path_of(ctx.req.uri)) {
            if let Progress::Onward(next) = run_directives(ctx, first[0].directive) {
                law_routes_in_order(next, first.drop_first(), second);
            }
        } else {
            law_routes_in_order(ctx, first.drop_first(), second);
        }
    }
}

/// The same holds of the directives of a route.
pub proof fn law_directives_in_order(
    ctx: ContextView,
    first: Seq<Seq<char>>,
    second: Seq<Seq<char>>,
)
    ensures
        run_directives(ctx, first + second) == match run_directives(ctx, first) {
            Progress::Onward(next) => run_directives(next, second),
            other => other,
        },
    decreases first.len(),
{
    let all = first + second;
    if first.len() == 0 {
        assert(all == second);
    } else {
        assert(all[0] == first[0]);
        assert(all.drop_first() == first.drop_first() + second);
        let (name, param) = directive_parts(first[0]);
        if directive_fault(ctx, name, param) is None {
            let (next, action) = directive_step(ctx, name, param);
            if action is None {
                law_directives_in_order(next, first.drop_first(), second);
            }
        }
    }
}

} // verus!
