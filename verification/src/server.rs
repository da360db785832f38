//! What the HTTP surface decides: who may ask, what a query selects, and how
//! results add up. Routing and transport are left to whoever serves.

use vstd::prelude::*;
use vstd::string::*;
use crate::auth::{
    create_auth_provider, no_provider_for, provider_for, AuthProvider, AuthProviderKind,
    UserPassAuthProvider,
};
use crate::config::Config;
use crate::duration::{parsed_seconds, DurationParser};
use crate::engine::{no_accessors_for, Core};
use crate::error::DoomsdayError;
use crate::types::{items_view, CacheItem, CacheItemView, InfoResponse, PopulateStats};
use crate::version::{version, version_of, version_text};

verus! {

/// The name of the header that carries the token.
pub const TOKEN_HEADER: &'static str = "X-Doomsday-Token";

/// The name of the cookie that carries the token.
pub const TOKEN_COOKIE: &'static str = "doomsday-token";

/// The token of a request: the one in the header where there is one, the one
/// in the cookie otherwise.
pub fn extract_token(header: Option<&str>, cookie: Option<&str>) -> (r: Option<String>)
    ensures
        match r {
            Some(token) => match header {
                Some(h) => token@ == h@,
                None => cookie matches Some(c) && token@ == c@,
            },
            None => header is None && cookie is None,
        },
{
    match header {
        Some(h) => Some(String::from_str(h)),
        None => match cookie {
            Some(c) => Some(String::from_str(c)),
            None => None,
        },
    }
}

/// The bound in seconds that a filter text sets; none where there is no text
/// or it stands for no duration.
pub open spec fn bound_of(text: Option<&str>) -> Option<int> {
    match text {
        Some(t) => if 0 < parsed_seconds(t@) <= i64::MAX {
            Some(parsed_seconds(t@) as int)
        } else {
            None
        },
        None => None,
    }
}

/// Whether a certificate passes the filters at `now`: it expires later than
/// `beyond` from now, and no later than `within` from now, as far as the bounds
/// are set.
pub open spec fn passes(item: CacheItemView, now: int, beyond: Option<int>, within: Option<int>) -> bool {
    &&& match beyond {
        Some(b) => item.not_after - now > b,
        None => true,
    }
    &&& match within {
        Some(w) => item.not_after - now <= w,
        None => true,
    }
}

/// The test for certificates that pass the filters at `now`.
pub open spec fn passing(now: int, beyond: Option<int>, within: Option<int>) -> spec_fn(
    CacheItemView,
) -> bool {
    |c: CacheItemView| passes(c, now, beyond, within)
}

/// The bound that a filter text sets.
pub fn parse_bound(text: Option<&str>) -> (r: Option<i64>)
    ensures
        match r {
            Some(b) => bound_of(text) == Some(b as int),
            None => bound_of(text) is None,
        },
{
    match text {
        Some(t) => match DurationParser::parse(t) {
            Ok(d) => Some(d.seconds),
            Err(_) => None,
        },
        None => None,
    }
}

/// The items that pass the filters at the instant `now`, in the order given.
/// A filter text that stands for no duration filters nothing.
pub fn filter_items(items: &Vec<CacheItem>, now: i64, beyond: Option<&str>, within: Option<&str>) -> (out:
    Vec<CacheItem>)
    ensures
        items_view(out@) == items_view(items@).filter(
            passing(now as int, bound_of(beyond), bound_of(within)),
        ),
{
    let beyond_bound = parse_bound(beyond);
    let within_bound = parse_bound(within);
    let ghost keep = passing(now as int, bound_of(beyond), bound_of(within));
    let ghost views = items_view(items@);
    let mut out: Vec<CacheItem> = Vec::new();
    let mut i: usize = 0;
    proof {
        assert(views.take(0).filter(keep) =~= Seq::<CacheItemView>::empty()) by {
            reveal(Seq::filter);
        }
        assert(items_view(out@) =~= Seq::<CacheItemView>::empty());
    }
    while i < items.len()
        invariant
            i <= items.len(),
            views == items_view(items@),
            keep == passing(now as int, bound_of(beyond), bound_of(within)),
            match beyond_bound {
                Some(b) => bound_of(beyond) == Some(b as int),
                None => bound_of(beyond) is None,
            },
            match within_bound {
                Some(b) => bound_of(within) == Some(b as int),
                None => bound_of(within) is None,
            },
            items_view(out@) == views.take(i as int).filter(keep),
        decreases items.len() - i,
    {
        let until: i128 = items[i].not_after as i128 - now as i128;
        let far_enough = match beyond_bound {
            Some(b) => until > b as i128,
            None => true,
        };
        let near_enough = match within_bound {
            Some(b) => until <= b as i128,
            None => true,
        };
        proof {
            let v = views[i as int];
            assert(v.not_after == items@[i as int].not_after);
            assert((far_enough && near_enough) == keep(v));
            assert(views.take(i + 1) =~= views.take(i as int).push(v));
            views.take(i as int).lemma_filter_push(v, keep);
        }
        if far_enough && near_enough {
            let item = items[i].clone();
            proof {
                assert(items_view(out@.push(item)) =~= items_view(out@).push(item@));
            }
            out.push(item);
        }
        i += 1;
    }
    proof {
        assert(views.take(i as int) =~= views);
    }
    out
}

/// The sum of two counts, or the largest count there is where the sum would
/// be larger.
pub open spec fn capped_sum(a: int, b: int, max: int) -> int {
    if a + b > max {
        max
    } else {
        a + b
    }
}

/// The statistics of the first `n` refreshes taken together: certificates,
/// paths and milliseconds added up, each capped at the largest number there
/// is.
pub open spec fn total_stats(stats: Seq<PopulateStats>, n: int) -> PopulateStats
    decreases n,
{
    if n <= 0 {
        PopulateStats { num_certs: 0, num_paths: 0, duration_ms: 0 }
    } else {
        let before = total_stats(stats, n - 1);
        PopulateStats {
            num_certs: capped_sum(
                before.num_certs as int,
                stats[n - 1].num_certs as int,
                usize::MAX as int,
            ) as usize,
            num_paths: capped_sum(
                before.num_paths as int,
                stats[n - 1].num_paths as int,
                usize::MAX as int,
            ) as usize,
            duration_ms: capped_sum(
                before.duration_ms as int,
                stats[n - 1].duration_ms as int,
                u64::MAX as int,
            ) as u64,
        }
    }
}

/// The statistics of several refreshes taken together.
pub fn combine_stats(stats: &Vec<PopulateStats>) -> (r: PopulateStats)
    ensures
        r == total_stats(stats@, stats@.len() as int),
{
    let mut total = PopulateStats { num_certs: 0, num_paths: 0, duration_ms: 0 };
    let mut i: usize = 0;
    while i < stats.len()
        invariant
            i <= stats.len(),
            total == total_stats(stats@, i as int),
        decreases stats.len() - i,
    {
        let more = stats[i];
        let num_certs: usize = if total.num_certs > usize::MAX - more.num_certs {
            usize::MAX
        } else {
            total.num_certs + more.num_certs
        };
        let num_paths: usize = if total.num_paths > usize::MAX - more.num_paths {
            usize::MAX
        } else {
            total.num_paths + more.num_paths
        };
        let duration_ms: u64 = if total.duration_ms > u64::MAX - more.duration_ms {
            u64::MAX
        } else {
            total.duration_ms + more.duration_ms
        };
        total = PopulateStats { num_certs, num_paths, duration_ms };
        i += 1;
    }
    total
}

/// The answer to a request for server information, for a build of which
/// the revision is not known.
pub fn info_response(auth_required: bool) -> (r: InfoResponse)
    ensures
        r.version@ == version_text("unknown"@, false),
        r.auth_required == auth_required,
{
    InfoResponse { version: version(), auth_required }
}

/// The answer to a request for server information, for a build from the
/// revision `revision`, from sources with uncommitted changes where `dirty`
/// says so.
pub fn info_response_of(revision: &str, dirty: bool, auth_required: bool) -> (r: InfoResponse)
    ensures
        r.version@ == version_text(revision@, dirty),
        r.auth_required == auth_required,
{
    InfoResponse { version: version_of(revision, dirty), auth_required }
}

/// The HTTP status that turns a request away for want of a good token.
pub const UNAUTHORIZED: u16 = 401;

/// The token that a request carries, if any.
pub open spec fn request_token(header: Option<&str>, cookie: Option<&str>) -> Option<Seq<char>> {
    match header {
        Some(h) => Some(h@),
        None => match cookie {
            Some(c) => Some(c@),
            None => None,
        },
    }
}

/// Lets a request through or turns it away. Where no token is required,
/// every request gets through. Otherwise the request must carry a token, in
/// the header or the cookie, and the token must be good; if not, it is turned
/// away as unauthorized.
pub fn check_access(auth: &mut AuthProviderKind, header: Option<&str>, cookie: Option<&str>) -> (r:
    Result<(), u16>)
    ensures
        match (*old(auth), *final(auth)) {
            (AuthProviderKind::Nop(_), AuthProviderKind::Nop(_)) => r is Ok,
            (AuthProviderKind::UserPass(before), AuthProviderKind::UserPass(after)) => match request_token(
                header,
                cookie,
            ) {
                None => r is Err && after == before,
                Some(token) => UserPassAuthProvider::presented(&before, &after, token, r is Ok)
                    && (!before.sessions().contains_key(token) ==> r is Err),
            },
            _ => false,
        },
        r matches Err(status) ==> status == 401,
{
    if !auth.requires_auth() {
        return Ok(());
    }
    let token = match extract_token(header, cookie) {
        Some(t) => t,
        None => {
            return Err(UNAUTHORIZED);
        },
    };
    match auth.validate_token(token.as_str()) {
        Ok(true) => Ok(()),
        _ => Err(UNAUTHORIZED),
    }
}

/// What the handlers share: the engine and the provider of authentication.
pub struct AppState {
    pub core: Core,
    pub auth: AuthProviderKind,
}

/// The server: the state that its handlers share.
pub struct DoomsdayServer {
    pub app_state: AppState,
}

impl DoomsdayServer {
    /// A server for `config`: an engine for it, and the provider of
    /// authentication that it names. Refused where a backend describes no
    /// adapter or the provider cannot be made.
    pub fn new(config: Config) -> (r: Result<Self, DoomsdayError>)
        ensures
            match r {
                Ok(server) => server.app_state.core.wf() && server.app_state.core.config() == config
                    && provider_for(server.app_state.auth, config.server.auth),
                Err(e) => (e is Config && no_accessors_for(e, config.backends@)) || no_provider_for(
                    e,
                    config.server.auth,
                ),
            },
    {
        let core = match Core::new(config) {
            Ok(c) => c,
            Err(e) => {
                return Err(e);
            },
        };
        let auth = match create_auth_provider(&core.get_config().server.auth) {
            Ok(a) => a,
            Err(e) => {
                return Err(e);
            },
        };
        Ok(DoomsdayServer { app_state: AppState { core, auth } })
    }

    /// The port to listen on.
    pub fn port(&self) -> (r: u16)
        ensures
            r == self.app_state.core.config().server.port,
    {
        self.app_state.core.get_config().server.port
    }
}

} // verus!
