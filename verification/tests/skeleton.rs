use supercell::auth::AuthError;
use supercell::skeleton::{
    build_page, denied_page, page_of_cursor, parse_cursor, route_feed_request, FeedControl,
    FeedParams, GateOutcome, PageOutcome,
};
use supercell::store::{FeedContent, FeedStore};

fn params(feed: Option<&str>, cursor: Option<&str>) -> FeedParams {
    FeedParams {
        feed: feed.map(|s| s.to_string()),
        limit: None,
        cursor: cursor.map(|s| s.to_string()),
    }
}

fn open_control() -> FeedControl {
    FeedControl { deny: Some("at://substitute/post".to_string()), allowed: vec![] }
}

fn restricted_control() -> FeedControl {
    FeedControl {
        deny: Some("at://substitute/post".to_string()),
        allowed: vec!["did:plc:allowed".to_string()],
    }
}

#[test]
fn cursor_takes_first_comma_token() {
    assert_eq!(parse_cursor(Some("150,extra,tokens".to_string())), Some(150));
}

#[test]
fn cursor_clamps_to_page_bound() {
    assert_eq!(page_of_cursor(&Some("99999".to_string())), 10000);
    assert_eq!(page_of_cursor(&Some("-3".to_string())), 0);
}

#[test]
fn cursor_defaults_to_first_page() {
    assert_eq!(parse_cursor(None), None);
    assert_eq!(parse_cursor(Some("abc".to_string())), None);
    assert_eq!(page_of_cursor(&None), 0);
    assert_eq!(page_of_cursor(&Some("abc".to_string())), 0);
    assert_eq!(page_of_cursor(&Some("12".to_string())), 12);
}

#[test]
fn missing_feed_parameter_is_a_client_error() {
    let p = params(None, None);
    let r = route_feed_request(&p, Some(&open_control()), &Err(AuthError::MissingAuthorization));
    assert!(matches!(r, GateOutcome::MissingFeed));
}

#[test]
fn unconfigured_feed_is_unknown() {
    let p = params(Some("at://feed/news"), None);
    let r = route_feed_request(&p, None, &Err(AuthError::MissingAuthorization));
    assert!(matches!(r, GateOutcome::UnknownFeed));
}

#[test]
fn open_feed_needs_no_authorization() {
    let p = params(Some("at://feed/news"), None);
    // no credential was presented at all, yet the request goes through
    let r = route_feed_request(&p, Some(&open_control()), &Err(AuthError::MissingAuthorization));
    assert!(matches!(r, GateOutcome::Fetch { page: 0 }));
}

#[test]
fn restricted_feed_serves_substitute_to_unauthenticated_caller() {
    let p = params(Some("at://feed/news"), Some("3"));
    let r = route_feed_request(&p, Some(&restricted_control()), &Err(AuthError::TokenExpired));
    match r {
        GateOutcome::Denied { substitute } => {
            assert_eq!(substitute, Some("at://substitute/post".to_string()));
        }
        _ => panic!("expected the deny branch"),
    }
}

#[test]
fn restricted_feed_serves_substitute_to_disallowed_identifier() {
    let p = params(Some("at://feed/news"), None);
    let r = route_feed_request(&p, Some(&restricted_control()), &Ok("did:plc:other".to_string()));
    match r {
        GateOutcome::Denied { substitute } => {
            assert_eq!(substitute, Some("at://substitute/post".to_string()));
        }
        _ => panic!("expected the deny branch"),
    }
}

#[test]
fn restricted_feed_admits_allowed_identifier() {
    let p = params(Some("at://feed/news"), Some("2"));
    let r = route_feed_request(&p, Some(&restricted_control()), &Ok("did:plc:allowed".to_string()));
    assert!(matches!(r, GateOutcome::Fetch { page: 2 }));
}

#[test]
fn denied_page_has_no_cursor() {
    let page = denied_page(Some("at://substitute/post".to_string()));
    assert!(page.cursor.is_none());
    assert_eq!(page.feed.len(), 1);
    assert_eq!(page.feed[0].post, "at://substitute/post");

    let empty = denied_page(None);
    assert!(empty.cursor.is_none());
    assert!(empty.feed.is_empty());
}

#[test]
fn nonempty_page_advances_cursor() {
    let r = build_page(0, Some(vec!["at://a".to_string(), "at://b".to_string()]));
    match r {
        PageOutcome::Page { items } => {
            assert_eq!(items.cursor, Some("1".to_string()));
            let posts: Vec<&str> = items.feed.iter().map(|iv| iv.post.as_str()).collect();
            assert_eq!(posts, vec!["at://a", "at://b"]);
        }
        _ => panic!("expected a page"),
    }
}

#[test]
fn empty_page_repeats_cursor() {
    let r = build_page(7, Some(vec![]));
    match r {
        PageOutcome::Page { items } => {
            assert_eq!(items.cursor, Some("7".to_string()));
            assert!(items.feed.is_empty());
        }
        _ => panic!("expected a page"),
    }
}

#[test]
fn missing_ranked_data_is_unknown_feed() {
    let r = build_page(0, None);
    assert!(matches!(r, PageOutcome::UnknownFeed));
}

#[test]
fn end_to_end_open_feed_two_rows() {
    // feed "news" configured with an empty allow-list
    let control = FeedControl { deny: None, allowed: vec![] };

    // the store holds two rows for "news", A indexed after B
    let mut store = FeedStore::new();
    let a = FeedContent {
        feed_id: "news".to_string(),
        uri: "at://post/A".to_string(),
        indexed_at: 2000,
        score: 1,
    };
    let b = FeedContent {
        feed_id: "news".to_string(),
        uri: "at://post/B".to_string(),
        indexed_at: 1000,
        score: 1,
    };
    store.feed_content_upsert(&a, 1).expect("upsert");
    store.feed_content_upsert(&b, 2).expect("upsert");

    // first request: cursor absent, limit unspecified
    let p = params(Some("news"), None);
    let page = match route_feed_request(&p, Some(&control), &Err(AuthError::MissingAuthorization))
    {
        GateOutcome::Fetch { page } => page,
        _ => panic!("expected the open feed to be served"),
    };
    assert_eq!(page, 0);
    let posts: Vec<String> =
        store.feed_content_cached("news", 50).into_iter().map(|r| r.uri).collect();
    match build_page(page, Some(posts)) {
        PageOutcome::Page { items } => {
            assert_eq!(items.cursor, Some("1".to_string()));
            let served: Vec<&str> = items.feed.iter().map(|iv| iv.post.as_str()).collect();
            assert_eq!(served, vec!["at://post/A", "at://post/B"]);
        }
        _ => panic!("expected a page"),
    }

    // follow-up request with cursor "1" against an exhausted store
    let p2 = params(Some("news"), Some("1"));
    let page2 = match route_feed_request(&p2, Some(&control), &Err(AuthError::MissingAuthorization))
    {
        GateOutcome::Fetch { page } => page,
        _ => panic!("expected the open feed to be served"),
    };
    assert_eq!(page2, 1);
    match build_page(page2, Some(vec![])) {
        PageOutcome::Page { items } => {
            assert_eq!(items.cursor, Some("1".to_string()));
            assert!(items.feed.is_empty());
        }
        _ => panic!("expected a page"),
    }
}
