use vstd::prelude::*;

use crate::auth::AuthError;
use crate::codec::{
    find_char, lemma_find_char_skip, parse_i64, spec_parse_i64, spec_u64_string, u64_to_string,
};

verus! {

/// The query parameters of one feed-skeleton request.
pub struct FeedParams {
    pub feed: Option<String>,
    pub limit: Option<u16>,
    pub cursor: Option<String>,
}

/// One content reference in a served page.
pub struct FeedItemView {
    pub post: String,
}

impl View for FeedItemView {
    type V = Seq<char>;

    open spec fn view(&self) -> Seq<char> {
        self.post@
    }
}

/// A served page: its content references and, when content was looked up,
/// the cursor for the next page.
pub struct FeedItemsView {
    pub cursor: Option<String>,
    pub feed: Vec<FeedItemView>,
}

pub struct FeedItemsViewV {
    pub cursor: Option<Seq<char>>,
    pub feed: Seq<Seq<char>>,
}

impl View for FeedItemsView {
    type V = FeedItemsViewV;

    open spec fn view(&self) -> FeedItemsViewV {
        FeedItemsViewV {
            cursor: match self.cursor {
                None => None,
                Some(c) => Some(c@),
            },
            feed: self.feed@.map_values(|iv: FeedItemView| iv@),
        }
    }
}

/// Per-feed visibility policy: an empty allow-list makes the feed public;
/// a non-empty one restricts it, with `deny` as the single substitute item
/// for rejected callers.
pub struct FeedControl {
    pub deny: Option<String>,
    pub allowed: Vec<String>,
}

pub struct FeedControlV {
    pub deny: Option<Seq<char>>,
    pub allowed: Seq<Seq<char>>,
}

impl View for FeedControl {
    type V = FeedControlV;

    open spec fn view(&self) -> FeedControlV {
        FeedControlV {
            deny: match self.deny {
                None => None,
                Some(d) => Some(d@),
            },
            allowed: self.allowed@.map_values(|s: String| s@),
        }
    }
}

pub open spec fn opt_string_view(o: Option<String>) -> Option<Seq<char>> {
    match o {
        None => None,
        Some(s) => Some(s@),
    }
}

pub open spec fn opt_control_view(o: Option<&FeedControl>) -> Option<FeedControlV> {
    match o {
        None => None,
        Some(c) => Some(c@),
    }
}

pub open spec fn auth_view(r: Result<String, AuthError>) -> Result<Seq<char>, AuthError> {
    match r {
        Ok(did) => Ok(did@),
        Err(e) => Err(e),
    }
}

// ---------------------------------------------------------------------------
// Cursor parsing
// ---------------------------------------------------------------------------

/// The page bound: a cursor never addresses a page beyond this.
pub const MAX_PAGE: i64 = 10000;

/// The text before the first comma, or the whole text when it has none;
/// anything after the comma is deliberately ignored.
pub open spec fn spec_first_cursor_token(s: Seq<char>) -> Seq<char> {
    let i = find_char(s, ',', 0);
    if i < 0 {
        s
    } else {
        s.subrange(0, i)
    }
}

pub open spec fn spec_clamp_page(v: int) -> int {
    if v < 0 {
        0
    } else if v > MAX_PAGE as int {
        MAX_PAGE as int
    } else {
        v
    }
}

/// The page a request asks for: the first comma-separated token of its
/// cursor read as an integer and clamped, or 0 when the cursor is absent or
/// unreadable.
pub open spec fn spec_page_of_cursor(cursor: Option<Seq<char>>) -> int {
    match cursor {
        None => 0,
        Some(s) => match spec_parse_i64(spec_first_cursor_token(s)) {
            None => 0,
            Some(v) => spec_clamp_page(v),
        },
    }
}

/// The text before the first comma of a cursor string.
fn first_token<'a>(s: &'a str) -> (r: &'a str)
    ensures
        r@ == spec_first_cursor_token(s@),
{
    let n = s.unicode_len();
    let mut i: usize = 0;
    while i < n && s.get_char(i) != ','
        invariant
            n == s@.len(),
            0 <= i <= n,
            forall|j: int| 0 <= j < i ==> s@[j] != ',',
        decreases n - i,
    {
        i = i + 1;
    }
    if i == n {
        proof {
            lemma_find_char_skip(s@, ',', 0, n as int);
            assert(s@.subrange(0, n as int) =~= s@);
        }
        s
    } else {
        proof {
            lemma_find_char_skip(s@, ',', 0, i as int);
            assert(find_char(s@, ',', 0) == i as int);
        }
        s.substring_char(0, i)
    }
}

/// Read a cursor string: only its first comma-separated token counts, and
/// only if that token is a well-formed integer.
pub fn parse_cursor(value: Option<String>) -> (r: Option<i64>)
    ensures
        value is None ==> r is None,
        value is Some ==> (r is Some <==> spec_parse_i64(
            spec_first_cursor_token(value.unwrap()@),
        ) is Some),
        value is Some && r is Some ==> r.unwrap() as int == spec_parse_i64(
            spec_first_cursor_token(value.unwrap()@),
        ).unwrap(),
{
    match value {
        None => None,
        Some(s) => parse_i64(first_token(s.as_str())),
    }
}

/// The page a request asks for, from its optional cursor.
pub fn page_of_cursor(cursor: &Option<String>) -> (r: u64)
    ensures
        r as int == spec_page_of_cursor(opt_string_view(*cursor)),
        r <= MAX_PAGE as u64,
{
    match cursor {
        None => 0,
        Some(s) => match parse_i64(first_token(s.as_str())) {
            None => 0,
            Some(v) => {
                if v < 0 {
                    0
                } else if v > MAX_PAGE {
                    MAX_PAGE as u64
                } else {
                    v as u64
                }
            },
        },
    }
}

// ---------------------------------------------------------------------------
// Access control
// ---------------------------------------------------------------------------

/// What access control decides for one request, before any content lookup.
pub enum GateOutcome {
    /// The request named no feed: a client error.
    MissingFeed,
    /// The named feed is not configured: a client error.
    UnknownFeed,
    /// The caller may not see the feed: serve the substitute, with no
    /// cursor.
    Denied { substitute: Option<String> },
    /// The caller may see the feed: fetch the given page.
    Fetch { page: u64 },
}

pub enum GateOutcomeV {
    MissingFeed,
    UnknownFeed,
    Denied { substitute: Option<Seq<char>> },
    Fetch { page: int },
}

impl View for GateOutcome {
    type V = GateOutcomeV;

    open spec fn view(&self) -> GateOutcomeV {
        match self {
            GateOutcome::MissingFeed => GateOutcomeV::MissingFeed,
            GateOutcome::UnknownFeed => GateOutcomeV::UnknownFeed,
            GateOutcome::Denied { substitute } => GateOutcomeV::Denied {
                substitute: opt_string_view(*substitute),
            },
            GateOutcome::Fetch { page } => GateOutcomeV::Fetch { page: *page as int },
        }
    }
}

/// Access control as a function of the request, the feed's configuration
/// and the authentication outcome. An open feed (empty allow-list) never
/// consults the authentication outcome; a feed with a non-empty allow-list
/// serves the substitute to every caller that did not authenticate as an
/// allowed identifier.
pub open spec fn spec_route(
    feed: Option<Seq<char>>,
    control: Option<FeedControlV>,
    auth: Result<Seq<char>, AuthError>,
    cursor: Option<Seq<char>>,
) -> GateOutcomeV {
    match feed {
        None => GateOutcomeV::MissingFeed,
        Some(_) => match control {
            None => GateOutcomeV::UnknownFeed,
            Some(ctl) => if ctl.allowed.len() == 0 {
                GateOutcomeV::Fetch { page: spec_page_of_cursor(cursor) }
            } else {
                match auth {
                    Err(_) => GateOutcomeV::Denied { substitute: ctl.deny },
                    Ok(did) => if ctl.allowed.contains(did) {
                        GateOutcomeV::Fetch { page: spec_page_of_cursor(cursor) }
                    } else {
                        GateOutcomeV::Denied { substitute: ctl.deny }
                    },
                }
            },
        },
    }
}

fn allowed_contains(allowed: &Vec<String>, did: &String) -> (r: bool)
    ensures
        r == allowed@.map_values(|s: String| s@).contains(did@),
{
    let ghost av = allowed@.map_values(|s: String| s@);
    let n = allowed.len();
    let mut i: usize = 0;
    while i < n
        invariant
            n == allowed@.len(),
            0 <= i <= n,
            av == allowed@.map_values(|s: String| s@),
            av.len() == n,
            forall|j: int| 0 <= j < i ==> av[j] != did@,
        decreases n - i,
    {
        if allowed[i] == *did {
            proof {
                assert(av[i as int] == did@);
            }
            return true;
        }
        i = i + 1;
    }
    false
}

/// Decide one request up to the content lookup: reject requests without a
/// feed, reject feeds missing from the configuration, let open feeds
/// through, and hold the rest to the authentication outcome and the
/// allow-list.
pub fn route_feed_request(
    params: &FeedParams,
    control: Option<&FeedControl>,
    auth: &Result<String, AuthError>,
) -> (r: GateOutcome)
    ensures
        r@ == spec_route(
            opt_string_view(params.feed),
            opt_control_view(control),
            auth_view(*auth),
            opt_string_view(params.cursor),
        ),
{
    if params.feed.is_none() {
        return GateOutcome::MissingFeed;
    }
    let ctl = match control {
        None => {
            return GateOutcome::UnknownFeed;
        },
        Some(c) => c,
    };
    if ctl.allowed.len() > 0 {
        let did = match auth {
            Err(_) => {
                return GateOutcome::Denied { substitute: clone_opt_string(&ctl.deny) };
            },
            Ok(did) => did,
        };
        if !allowed_contains(&ctl.allowed, did) {
            return GateOutcome::Denied { substitute: clone_opt_string(&ctl.deny) };
        }
    }
    GateOutcome::Fetch { page: page_of_cursor(&params.cursor) }
}

fn clone_opt_string(o: &Option<String>) -> (r: Option<String>)
    ensures
        opt_string_view(r) == opt_string_view(*o),
{
    match o {
        None => None,
        Some(s) => Some(s.clone()),
    }
}

/// The substitute page for a rejected or unauthenticated caller: the feed's
/// single deny item, or nothing, and never a cursor.
pub fn denied_page(substitute: Option<String>) -> (r: FeedItemsView)
    ensures
        r@.cursor is None,
        substitute is Some ==> r@.feed == seq![substitute.unwrap()@],
        substitute is None ==> r@.feed == Seq::<Seq<char>>::empty(),
{
    match substitute {
        Some(value) => {
            let mut feed: Vec<FeedItemView> = Vec::new();
            feed.push(FeedItemView { post: value });
            let r = FeedItemsView { cursor: None, feed };
            proof {
                assert(r@.feed =~= seq![r.feed@[0]@]);
            }
            r
        },
        None => {
            let r = FeedItemsView { cursor: None, feed: Vec::new() };
            proof {
                assert(r@.feed =~= Seq::<Seq<char>>::empty());
            }
            r
        },
    }
}

// ---------------------------------------------------------------------------
// Page building
// ---------------------------------------------------------------------------

/// What the read path answers once the ranked view was consulted.
pub enum PageOutcome {
    /// The ranked view knows nothing of the feed: a client error, even
    /// though the configuration knew it.
    UnknownFeed,
    /// The page to serve.
    Page { items: FeedItemsView },
}

pub enum PageOutcomeV {
    UnknownFeed,
    Page { items: FeedItemsViewV },
}

impl View for PageOutcome {
    type V = PageOutcomeV;

    open spec fn view(&self) -> PageOutcomeV {
        match self {
            PageOutcome::UnknownFeed => PageOutcomeV::UnknownFeed,
            PageOutcome::Page { items } => PageOutcomeV::Page { items: items@ },
        }
    }
}

pub open spec fn opt_posts_view(o: Option<Seq<String>>) -> Option<Seq<Seq<char>>> {
    match o {
        None => None,
        Some(ps) => Some(ps.map_values(|s: String| s@)),
    }
}

/// The served page as a function of the page number and what the ranked
/// view returned: its items in order, and as next cursor the page itself
/// when the page is empty (the feed is exhausted and the cursor repeats),
/// one past it otherwise.
pub open spec fn spec_build_page(page: int, posts: Option<Seq<Seq<char>>>) -> PageOutcomeV {
    match posts {
        None => PageOutcomeV::UnknownFeed,
        Some(ps) => PageOutcomeV::Page {
            items: FeedItemsViewV {
                cursor: Some(
                    spec_u64_string(
                        if ps.len() == 0 {
                            page
                        } else {
                            page + 1
                        },
                    ),
                ),
                feed: ps,
            },
        },
    }
}

/// Turn the ranked view's answer for `(feed, page)` into the response: an
/// absent answer means the feed is unknown to the content store; an answer
/// becomes the page, with the advancing or repeating next cursor.
pub fn build_page(page: u64, posts: Option<Vec<String>>) -> (r: PageOutcome)
    requires
        page <= MAX_PAGE as u64,
    ensures
        r@ == spec_build_page(
            page as int,
            match posts {
                None => None,
                Some(ps) => Some(ps@.map_values(|s: String| s@)),
            },
        ),
{
    let ps = match posts {
        None => {
            return PageOutcome::UnknownFeed;
        },
        Some(ps) => ps,
    };
    let next = if ps.len() == 0 {
        page
    } else {
        page + 1
    };
    let cursor = u64_to_string(next);
    let n = ps.len();
    let mut feed: Vec<FeedItemView> = Vec::new();
    let mut i: usize = 0;
    while i < n
        invariant
            n == ps@.len(),
            0 <= i <= n,
            feed@.len() == i,
            forall|k: int| 0 <= k < i ==> feed@.map_values(|iv: FeedItemView| iv@)[k] == ps@[k]@,
        decreases n - i,
    {
        feed.push(FeedItemView { post: ps[i].clone() });
        i = i + 1;
    }
    let r = PageOutcome::Page { items: FeedItemsView { cursor: Some(cursor), feed } };
    proof {
        assert(r@ matches PageOutcomeV::Page { items } && items.feed =~= ps@.map_values(
            |s: String| s@,
        ));
    }
    r
}

// ---------------------------------------------------------------------------
// Laws of access control and the read path
// ---------------------------------------------------------------------------

/// A feed with an empty allow-list requires no authentication: whatever
/// the authentication outcome, the request proceeds to fetch the page.
pub proof fn lemma_open_feed_serves(
    feed: Seq<char>,
    ctl: FeedControlV,
    auth: Result<Seq<char>, AuthError>,
    cursor: Option<Seq<char>>,
)
    requires
        ctl.allowed.len() == 0,
    ensures
        spec_route(Some(feed), Some(ctl), auth, cursor) == (GateOutcomeV::Fetch {
            page: spec_page_of_cursor(cursor),
        }),
{
}

/// A feed with a non-empty allow-list serves the substitute, and nothing
/// else, to a caller whose authentication failed or whose identifier is
/// not in the allow-list.
pub proof fn lemma_rejected_caller_gets_substitute(
    feed: Seq<char>,
    ctl: FeedControlV,
    auth: Result<Seq<char>, AuthError>,
    cursor: Option<Seq<char>>,
)
    requires
        ctl.allowed.len() > 0,
        auth is Err || !ctl.allowed.contains(auth.unwrap()),
    ensures
        spec_route(Some(feed), Some(ctl), auth, cursor) == (GateOutcomeV::Denied {
            substitute: ctl.deny,
        }),
{
}

/// An empty page repeats the page number as its next cursor, signalling the
/// end of the feed without erroring.
pub proof fn lemma_exhausted_page_repeats_cursor(page: int)
    ensures
        spec_build_page(page, Some(Seq::<Seq<char>>::empty())) == (PageOutcomeV::Page {
            items: FeedItemsViewV {
                cursor: Some(spec_u64_string(page)),
                feed: Seq::<Seq<char>>::empty(),
            },
        }),
{
}

/// A non-empty page advances the cursor to the next page number.
pub proof fn lemma_nonempty_page_advances_cursor(page: int, posts: Seq<Seq<char>>)
    requires
        posts.len() > 0,
    ensures
        spec_build_page(page, Some(posts)) == (PageOutcomeV::Page {
            items: FeedItemsViewV { cursor: Some(spec_u64_string(page + 1)), feed: posts },
        }),
{
}

} // verus!
