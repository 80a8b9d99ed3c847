use bw_build_overlay::liquipedia::api::{
    decode, encode, page_url, parse_liquipedia_title, rate_limit_for, read_page_title,
    user_agent_for, ApiError, LiquipediaCategoryMember, RevisionInfo, DEFAULT_USER_AGENT,
};
use bw_build_overlay::liquipedia::response::{
    absorb_listing, bad_status, check_reply, page_wikitext_of, title_batches, LiquipediaErrorBody,
    LiquipediaNormalized, LiquipediaPage, LiquipediaPageRevision, LiquipediaQueryInner,
    LiquipediaQueryResponse, RevisionTable,
};

#[test]
fn page_url_encodes_spaces_as_underscores() {
    assert_eq!(
        page_url("1 Gate Core (vs. Terran)"),
        "https://liquipedia.net/starcraft/1_Gate_Core_%28vs._Terran%29"
    );
}

#[test]
fn parse_liquipedia_title_accepts_url_or_title() {
    assert_eq!(
        parse_liquipedia_title("https://liquipedia.net/starcraft/1_Gate_Core_(vs._Terran)").unwrap(),
        "1 Gate Core (vs. Terran)"
    );
    assert_eq!(parse_liquipedia_title("1 Gate Core (vs. Terran)").unwrap(), "1 Gate Core (vs. Terran)");
    assert_eq!(parse_liquipedia_title("liquipedia.net/starcraft/Some_Build").unwrap(), "Some Build");
}

#[test]
fn parse_liquipedia_title_rejects_empty() {
    assert!(matches!(parse_liquipedia_title("   "), Err(ApiError::EmptyInput)));
}

#[test]
fn parse_liquipedia_title_rejects_other_sites() {
    match parse_liquipedia_title("https://example.com/foo") {
        Err(ApiError::InvalidUrl(m)) => assert_eq!(m, "Expected a liquipedia.net/starcraft URL."),
        other => panic!("unexpected {:?}", other),
    }
}

#[test]
fn read_page_title_answers_every_input() {
    assert!(matches!(read_page_title("  "), Some(Err(ApiError::EmptyInput))));
    assert_eq!(read_page_title("9 Pool").unwrap().unwrap(), "9 Pool");
}

#[test]
fn encode_leaves_unreserved_bytes_and_escapes_the_rest() {
    assert_eq!(encode("a-b_c.d~e/f"), "a-b_c.d~e/f");
    assert_eq!(encode("a b&c"), "a%20b%26c");
    assert_eq!(encode("é"), "%C3%A9");
}

#[test]
fn decode_undoes_encode() {
    for s in ["1 Gate Core (vs. Terran)", "é ü ✓", "", "100%"] {
        assert_eq!(decode(&encode(s)).as_deref(), Some(s));
    }
}

#[test]
fn decode_keeps_stray_percent_signs_and_rejects_bad_utf8() {
    assert_eq!(decode("100%").as_deref(), Some("100%"));
    assert_eq!(decode("%zz").as_deref(), Some("%zz"));
    assert_eq!(decode("%FF"), None);
}

#[test]
fn user_agent_falls_back_to_default_when_blank() {
    assert_eq!(user_agent_for("   "), DEFAULT_USER_AGENT);
    assert_eq!(user_agent_for("me@example.com"), "me@example.com");
}

#[test]
fn rate_limit_never_drops_below_minimum() {
    assert_eq!(rate_limit_for(100), 2000);
    assert_eq!(rate_limit_for(2300), 2300);
}

#[test]
fn api_error_messages_match_their_display() {
    assert_eq!(bad_status(404, "nope").message(), "Liquipedia HTTP 404: nope");
    assert_eq!(ApiError::NotFound("X".to_string()).message(), "Page not found: X");
    assert_eq!(ApiError::EmptyInput.message(), "Enter a Liquipedia URL or page title.");
    assert_eq!(
        ApiError::Api { code: "c".to_string(), info: "i".to_string() }.message(),
        "Liquipedia API error c: i"
    );
    assert_eq!(ApiError::Json("bad".to_string()).message(), "json: bad");
}

#[test]
fn bad_status_keeps_the_first_500_characters() {
    let body = "x".repeat(600);
    match bad_status(500, &body) {
        ApiError::BadStatus { status, body } => {
            assert_eq!(status, 500);
            assert_eq!(body.chars().count(), 500);
        }
        other => panic!("unexpected {:?}", other),
    }
}

fn empty_inner() -> LiquipediaQueryInner {
    LiquipediaQueryInner { pages: vec![], categorymembers: vec![], normalized: vec![], redirects: vec![] }
}

#[test]
fn check_reply_turns_error_bodies_into_errors() {
    let reply = LiquipediaQueryResponse {
        error: Some(LiquipediaErrorBody { code: "badtitle".to_string(), info: "Bad title".to_string() }),
        query: None,
        cmcontinue: None,
    };
    match check_reply(reply) {
        Err(ApiError::Api { code, info }) => {
            assert_eq!(code, "badtitle");
            assert_eq!(info, "Bad title");
        }
        other => panic!("unexpected {:?}", other),
    }
    let ok = LiquipediaQueryResponse { error: None, query: Some(empty_inner()), cmcontinue: None };
    assert!(check_reply(ok).is_ok());
}

#[test]
fn page_wikitext_of_reads_first_page_and_revision() {
    assert!(matches!(page_wikitext_of(None, "T"), Err(ApiError::NotFound(t)) if t == "T"));
    let mut q = empty_inner();
    q.pages.push(LiquipediaPage {
        pageid: None,
        title: "Gone".to_string(),
        missing: true,
        ns: 0,
        revisions: None,
    });
    assert!(matches!(page_wikitext_of(Some(q), "T"), Err(ApiError::NotFound(t)) if t == "Gone"));
    let mut q = empty_inner();
    q.pages.push(LiquipediaPage {
        pageid: Some(7),
        title: "9 Pool".to_string(),
        missing: false,
        ns: 0,
        revisions: Some(vec![LiquipediaPageRevision {
            revid: Some(42),
            timestamp: Some("2024-01-01T00:00:00Z".to_string()),
            content: Some("text".to_string()),
        }]),
    });
    let page = page_wikitext_of(Some(q), "9_Pool").unwrap();
    assert_eq!(page.page_title, "9 Pool");
    assert_eq!(page.page_id, Some(7));
    assert_eq!(page.revision_id, Some(42));
    assert_eq!(page.wikitext, "text");
}

#[test]
fn absorb_listing_appends_members_and_returns_continuation() {
    let mut members = vec![LiquipediaCategoryMember { pageid: 1, ns: 0, title: "A".to_string() }];
    let mut inner = empty_inner();
    inner.categorymembers.push(LiquipediaCategoryMember { pageid: 2, ns: 14, title: "Category:B".to_string() });
    let reply = LiquipediaQueryResponse { error: None, query: Some(inner), cmcontinue: Some("next".to_string()) };
    let cont = absorb_listing(&mut members, reply);
    assert_eq!(cont.as_deref(), Some("next"));
    assert_eq!(members.len(), 2);
    assert_eq!(members[1].title, "Category:B");
}

#[test]
fn title_batches_join_fifty_titles_per_query() {
    let titles: Vec<String> = (0..120).map(|i| format!("T{}", i)).collect();
    let batches = title_batches(&titles);
    assert_eq!(batches.len(), 3);
    assert_eq!(batches[0].split('|').count(), 50);
    assert!(batches[0].starts_with("T0|T1|"));
    assert_eq!(batches[2].split('|').count(), 20);
    assert!(title_batches(&vec![]).is_empty());
    assert_eq!(title_batches(&vec!["Only".to_string()]), vec!["Only".to_string()]);
}

#[test]
fn revision_table_follows_normalised_and_redirected_titles() {
    let mut table = RevisionTable::new();
    let mut q = empty_inner();
    q.pages.push(LiquipediaPage {
        pageid: Some(1),
        title: "1 Gate Core".to_string(),
        missing: false,
        ns: 0,
        revisions: Some(vec![LiquipediaPageRevision { revid: Some(10), timestamp: None, content: None }]),
    });
    q.pages.push(LiquipediaPage {
        pageid: None,
        title: "No Revision".to_string(),
        missing: true,
        ns: 0,
        revisions: None,
    });
    q.normalized.push(LiquipediaNormalized { from: "1_Gate_Core".to_string(), to: "1 Gate Core".to_string() });
    q.redirects.push(LiquipediaNormalized { from: "Old Name".to_string(), to: "1 Gate Core".to_string() });
    q.redirects.push(LiquipediaNormalized { from: "Elsewhere".to_string(), to: "Unknown".to_string() });
    table.absorb(&q);
    assert_eq!(table.get("1 Gate Core").unwrap().revision_id, Some(10));
    assert_eq!(table.get("1_Gate_Core").unwrap().revision_id, Some(10));
    assert_eq!(table.get("Old Name").unwrap().revision_id, Some(10));
    assert!(table.get("No Revision").is_none());
    assert!(table.get("Elsewhere").is_none());
    table.insert(
        "1 Gate Core".to_string(),
        RevisionInfo { revision_id: Some(11), revision_timestamp: None, missing: false },
    );
    assert_eq!(table.get("1 Gate Core").unwrap().revision_id, Some(11));
}
