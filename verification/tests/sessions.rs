//! Sessions: ids, prefixes, ages, images, order.

use tui::digest::{sha256_hex, to_hex};
use tui::json::{get_u64, Amount, Json};
use tui::render::screen::ReasoningEffort;
use tui::session::{
    externalize_blobs, internalize_blobs, new_session_id, now_ms, order_sessions, resolve_prefix,
    resume_hint, session_updated_at, shortest_unique_prefix, time_ago, with_id, Content,
    ContentPart, IdSeed, Message, Session, SessionMeta, ToolCall, TurnMeta, MIN_PREFIX_LEN,
};

fn seed(counter: u64) -> IdSeed {
    IdSeed {
        pid: 7,
        counter,
        entropy: 99,
    }
}

#[test]
fn time_ago_formats() {
    let now = 10_000_000_000u64;
    assert_eq!(time_ago(now - 1_000, now), "1s ago");
    assert_eq!(time_ago(now - 60_000, now), "1m ago");
    assert_eq!(time_ago(now - 3_600_000, now), "1h ago");
    assert_eq!(time_ago(now - 86_400_000, now), "1d ago");
    assert_eq!(time_ago(now - 604_800_000, now), "1w ago");
    assert_eq!(time_ago(now - 2_592_000_000, now), "1mo ago");
}

#[test]
fn session_id_is_full_sha256_hex() {
    let id = new_session_id(123456789, seed(0));
    assert_eq!(id.len(), 64);
    assert!(id.chars().all(|c| c.is_ascii_hexdigit()));
}

#[test]
fn session_ids_are_unique() {
    let id1 = new_session_id(100, seed(0));
    let id2 = new_session_id(100, seed(1));
    assert_ne!(id1, id2);
}

#[test]
fn shortest_prefix_with_no_others() {
    let id = "abcdef1234567890";
    assert_eq!(MIN_PREFIX_LEN, 4);
    assert_eq!(shortest_unique_prefix(id, None), "abcd");
    assert_eq!(shortest_unique_prefix(id, Some(&Vec::new())), "abcd");
}

#[test]
fn ages_are_rounded_down_but_never_zero() {
    assert_eq!(time_ago(5_000, 5_000), "1s ago");
    assert_eq!(time_ago(9_000, 5_000), "1s ago");
    assert_eq!(time_ago(0, 59_999), "59s ago");
    assert_eq!(time_ago(0, 119_000), "1m ago");
    assert_eq!(time_ago(0, 2 * 86_400_000), "2d ago");
}

#[test]
fn ids_are_digests_of_their_seed() {
    let id = new_session_id(0, seed(0));
    assert_eq!(id, new_session_id(0, seed(0)));
    assert_ne!(id, new_session_id(1, seed(0)));
    let other = IdSeed { entropy: 98, ..seed(0) };
    assert_ne!(id, new_session_id(0, other));
    let abc: Vec<u8> = vec![97, 98, 99];
    assert_eq!(
        sha256_hex(&abc),
        "ba7816bf8f01cfea414140de5dae2223b00361a396177a9cb410ff61f20015ad"
    );
    assert_eq!(to_hex(&vec![0, 15, 255]), "000fff");
}

fn names(v: &[&str]) -> Vec<String> {
    v.iter().map(|s| s.to_string()).collect()
}

#[test]
fn prefixes_stand_for_one_session() {
    let all = names(&["abcd1111", "abcd2222", "ef001111"]);
    assert_eq!(resolve_prefix("ef", false, &all), Some("ef001111".to_string()));
    assert_eq!(resolve_prefix("abcd", false, &all), None);
    assert_eq!(resolve_prefix("zz", false, &all), None);
    assert_eq!(resolve_prefix("abcd", true, &all), Some("abcd".to_string()));
}

#[test]
fn short_ids_lead_back() {
    let all = names(&["abcd1111", "abcd2222", "abce1111", "ef001111"]);
    assert_eq!(shortest_unique_prefix("abcd2222", Some(&all)), "abcd2");
    assert_eq!(shortest_unique_prefix("ef001111", Some(&all)), "ef00");
    assert_eq!(shortest_unique_prefix("ab", Some(&all)), "ab");
    for id in &all {
        let short = shortest_unique_prefix(id, Some(&all));
        assert_eq!(resolve_prefix(&short, false, &all), Some(id.clone()));
    }
    assert_eq!(
        resume_hint("ef001111", Some(&all)),
        "resume with:\nsmelt --resume ef00\n"
    );
}

fn image(url: &str) -> Message {
    Message {
        role: "user".to_string(),
        content: Some(Content::Parts(vec![
            ContentPart::Text {
                text: url.to_string(),
            },
            ContentPart::ImageUrl {
                url: url.to_string(),
                label: Some("shot".to_string()),
            },
        ])),
        tool_calls: None,
        tool_call_id: None,
    }
}

fn url_of(m: &Message) -> String {
    match &m.content {
        Some(Content::Parts(ps)) => match &ps[1] {
            ContentPart::ImageUrl { url, .. } => url.clone(),
            _ => panic!("no image"),
        },
        _ => panic!("no parts"),
    }
}

#[test]
fn images_go_to_files_and_come_back() {
    let to_file = vec![("data:a".to_string(), "blob:1".to_string())];
    let back = vec![("blob:1".to_string(), "data:a".to_string())];
    let mut ms = vec![image("data:a"), image("http://x")];
    externalize_blobs(&mut ms, &to_file);
    assert_eq!(url_of(&ms[0]), "blob:1");
    assert_eq!(url_of(&ms[1]), "http://x");
    match &ms[0].content {
        Some(Content::Parts(ps)) => assert!(matches!(
            &ps[0],
            ContentPart::Text { text } if text == "data:a"
        )),
        _ => panic!("no parts"),
    }
    internalize_blobs(&mut ms, &back);
    assert_eq!(url_of(&ms[0]), "data:a");
}

#[test]
fn sessions_start_now_and_fork() {
    let mut s = Session::new(seed(1), Some("/work".to_string()));
    assert!(s.created_at_ms > 1_600_000_000_000);
    assert_eq!(s.updated_at_ms, s.created_at_ms);
    assert_eq!(s.id, new_session_id(s.created_at_ms, seed(1)));
    assert!(now_ms() >= s.created_at_ms);
    s.title = Some("a title".to_string());
    s.reasoning_effort = Some(ReasoningEffort::High);
    s.token_snapshots = vec![(2, 100)];
    s.cost_snapshots = vec![(2, 0.25f64.to_bits()), (4, 1.5f64.to_bits())];
    s.turn_metas = vec![(
        2,
        TurnMeta {
            elapsed_ms: 7,
            avg_tps: Some(12.5f64.to_bits()),
            interrupted: true,
            tool_elapsed: vec![("c1".to_string(), 5)],
            agent_blocks: vec![(
                "c2".to_string(),
                Json::Arr(vec![Json::Obj(vec![(
                    "n".to_string(),
                    Json::Num("1".to_string(), Amount::Natural(1)),
                )])]),
            )],
        },
    )];
    s.messages = vec![image("data:a")];
    s.messages[0].tool_calls = Some(vec![ToolCall {
        id: "c1".to_string(),
        name: "bash".to_string(),
        arguments: "{}".to_string(),
    }]);
    let f = s.fork(seed(2));
    assert_eq!(f.parent_id, Some(s.id.clone()));
    assert_ne!(f.id, s.id);
    assert_eq!(f.title, s.title);
    assert_eq!(f.cwd, Some("/work".to_string()));
    assert_eq!(f.token_snapshots, s.token_snapshots);
    assert_eq!(f.cost_snapshots, s.cost_snapshots);
    assert_eq!(f64::from_bits(f.cost_snapshots[1].1), 1.5);
    assert_eq!(f.turn_metas.len(), 1);
    let (at, turn) = &f.turn_metas[0];
    assert_eq!((*at, turn.elapsed_ms, turn.interrupted), (2, 7, true));
    assert_eq!(turn.avg_tps.map(f64::from_bits), Some(12.5));
    assert_eq!(turn.tool_elapsed, vec![("c1".to_string(), 5)]);
    assert_eq!(turn.agent_blocks[0].0, "c2");
    match &turn.agent_blocks[0].1 {
        Json::Arr(a) => match &a[0] {
            Json::Obj(o) => assert_eq!(get_u64(o, "n"), Some(1)),
            _ => panic!("no object"),
        },
        _ => panic!("no list"),
    }
    assert!(Session::new(seed(3), None).turn_metas.is_empty());
    assert_eq!(url_of(&f.messages[0]), "data:a");
    assert_eq!(f.messages[0].tool_calls.as_ref().unwrap()[0].id, "c1");
    let m = s.meta();
    assert_eq!(m.id, s.id);
    assert_eq!(m.title, s.title);
    assert_eq!(m.updated_at_ms, s.updated_at_ms);
    assert_eq!(m.parent_id, None);
}

fn meta(id: &str, created: u64, updated: u64) -> SessionMeta {
    let mut m = Session::new(seed(3), None).meta();
    m.id = id.to_string();
    m.created_at_ms = created;
    m.updated_at_ms = updated;
    m
}

#[test]
fn the_last_changed_session_comes_first() {
    let v = vec![
        meta("a", 5, 10),
        meta("b", 30, 0),
        meta("c", 1, 20),
        meta("d", 2, 20),
    ];
    assert_eq!(session_updated_at(&v[1]), 30);
    let ids: Vec<String> = order_sessions(v).into_iter().map(|m| m.id).collect();
    assert_eq!(ids, vec!["b", "c", "d", "a"]);
}

#[test]
fn a_session_without_id_goes_by_its_directory() {
    assert_eq!(with_id(meta("", 1, 1), "dir").id, "dir");
    assert_eq!(with_id(meta("x", 1, 1), "dir").id, "x");
}
