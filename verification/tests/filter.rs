use jumpseat::app::AppState;
use jumpseat::filter::{rank, score, MAX_SCORED_CHARS};
use jumpseat::models::Connection;

fn connection(name: &str, user: &str, host: &str, port: Option<u16>) -> Connection {
    Connection {
        name: name.to_string(),
        user: user.to_string(),
        host: host.to_string(),
        port,
        term: None,
    }
}

fn state(records: Vec<Connection>, query: &str) -> AppState {
    let mut app = AppState::default();
    app.connections = records;
    app.search = query.to_string();
    app.apply_filter();
    app
}

#[test]
fn rank_orders_by_falling_score() {
    assert_eq!(rank(&vec![Some(1), Some(3), Some(2)]), vec![1, 2, 0]);
    assert_eq!(rank(&vec![Some(-5), Some(-1), Some(-9)]), vec![1, 0, 2]);
    assert_eq!(rank(&vec![Some(i64::MIN), Some(i64::MAX), Some(0)]), vec![1, 2, 0]);
}

#[test]
fn rank_leaves_out_what_does_not_match() {
    assert_eq!(rank(&vec![Some(5), None, Some(7), Some(5)]), vec![2, 0, 3]);
    assert_eq!(rank(&vec![None, None]), Vec::<usize>::new());
    assert_eq!(rank(&Vec::new()), Vec::<usize>::new());
    assert_eq!(rank(&vec![None, Some(0)]), vec![1]);
}

#[test]
fn rank_keeps_equal_scores_in_stored_order() {
    assert_eq!(rank(&vec![Some(4), Some(4), Some(4), Some(4)]), vec![0, 1, 2, 3]);
    assert_eq!(rank(&vec![Some(1), Some(9), Some(1), Some(9), Some(1)]), vec![1, 3, 0, 2, 4]);
}

#[test]
fn rank_agrees_with_a_stable_sort() {
    let mut seed: u64 = 12345;
    let mut round = 0;
    while round < 200 {
        let mut scores: Vec<Option<i64>> = Vec::new();
        let mut k = 0;
        while k < round % 17 {
            seed = seed.wrapping_mul(6364136223846793005).wrapping_add(1442695040888963407);
            let v = (seed >> 33) % 7;
            scores.push(if v == 0 { None } else { Some(v as i64 - 3) });
            k += 1;
        }
        let mut expected: Vec<(i64, usize)> =
            scores.iter().enumerate().filter_map(|(i, s)| s.map(|s| (s, i))).collect();
        expected.sort_by(|a, b| b.0.cmp(&a.0));
        let expected: Vec<usize> = expected.into_iter().map(|(_, i)| i).collect();
        assert_eq!(rank(&scores), expected);
        round += 1;
    }
}

#[test]
fn score_is_the_matchers_answer() {
    assert_eq!(score("abc", "abx"), None);
    assert_eq!(score("", "a"), None);
    assert_eq!(score("abcdefaghi", "中"), None);
    assert!(score("axbycz", "abc").is_some());
    assert!(score("axbycz", "xyz").is_some());
    assert_eq!(score("abcdefaghi", ""), Some(0));
}

#[test]
fn score_prefers_the_closer_match() {
    let close = score("ab", "ab").unwrap();
    let far = score("axxxxxxxxxxxxxxxxxxxxxxxxxxxxxxb", "ab").unwrap();
    assert!(close > far);
}

#[test]
fn score_gives_the_same_answer_each_time() {
    let first = score("staging-web  deploy@web1:2200", "sw");
    assert!(first.is_some());
    assert!(score("aaaa bbbb aaaa", "ab").is_some());
    assert_eq!(score("staging-web  deploy@web1:2200", "sw"), first);
}

#[test]
fn score_stops_at_the_length_limit() {
    let longest = "a".repeat(MAX_SCORED_CHARS);
    let too_long = "a".repeat(MAX_SCORED_CHARS + 1);
    assert!(score(&longest, "a").is_some());
    assert_eq!(score(&too_long, "a"), None);
    assert_eq!(score("a", &too_long), None);
}

#[test]
fn an_empty_query_shows_everything() {
    let app = state(vec![connection("alpha", "bob", "h1", Some(22))], "");
    assert_eq!(app.filtered_indices, vec![0]);
    assert_eq!(app.selected, 0);
}

#[test]
fn a_blank_query_shows_everything_in_stored_order() {
    let records = vec![
        connection("zeta", "u", "h", None),
        connection("alpha", "u", "h", None),
        connection("mid", "u", "h", None),
    ];
    let app = state(records, " \t ");
    assert_eq!(app.filtered_indices, vec![0, 1, 2]);
    assert_eq!(app.selected, 0);
}

#[test]
fn no_records_show_nothing() {
    let app = state(Vec::new(), "");
    assert_eq!(app.filtered_indices, Vec::<usize>::new());
    assert_eq!(app.selected, 0);
    let app = state(Vec::new(), "db");
    assert_eq!(app.filtered_indices, Vec::<usize>::new());
    assert_eq!(app.selected, 0);
}

#[test]
fn a_query_leaves_the_records_that_match() {
    let records =
        vec![connection("prod-db", "root", "h1", None), connection("staging-web", "root", "h2", None)];
    let app = state(records, "db");
    assert_eq!(app.filtered_indices, vec![0]);
    assert_eq!(app.selected, 0);
}

#[test]
fn the_query_is_trimmed() {
    let records =
        vec![connection("prod-db", "root", "h1", None), connection("staging-web", "root", "h2", None)];
    let app = state(records, "  web ");
    assert_eq!(app.filtered_indices, vec![1]);
}

#[test]
fn the_query_reads_the_whole_label() {
    let records = vec![
        connection("one", "alice", "h1", Some(2200)),
        connection("two", "bob", "h2", None),
    ];
    assert_eq!(state(records, "2200").filtered_indices, vec![0]);
    let records = vec![
        connection("one", "alice", "h1", Some(2200)),
        connection("two", "bob", "h2", None),
    ];
    assert_eq!(state(records, "bob@h2").filtered_indices, vec![1]);
}

#[test]
fn visible_records_are_those_with_a_score_by_falling_score() {
    let names = ["web", "my-web-server", "db", "w-e-b", "bew", "WEB", "web"];
    let records: Vec<Connection> =
        names.iter().map(|n| connection(n, "root", "host", None)).collect();
    let scores: Vec<Option<i64>> = records.iter().map(|c| score(&c.label(), "web")).collect();
    let app = state(records, "web");
    for i in 0..names.len() {
        assert_eq!(app.filtered_indices.contains(&i), scores[i].is_some(), "record {}", i);
    }
    for pair in app.filtered_indices.windows(2) {
        let (a, b) = (pair[0], pair[1]);
        assert!(scores[a] > scores[b] || (scores[a] == scores[b] && a < b));
    }
    assert_eq!(app.filtered_indices, rank(&scores));
    assert!(app.filtered_indices.len() >= 4);
}

#[test]
fn the_filter_gives_the_same_answer_twice() {
    let names = ["web", "my-web-server", "db", "w-e-b", "web"];
    let records: Vec<Connection> =
        names.iter().map(|n| connection(n, "root", "host", None)).collect();
    let mut app = state(records, "we");
    let first = app.filtered_indices.clone();
    app.apply_filter();
    assert_eq!(app.filtered_indices, first);
    let records: Vec<Connection> =
        names.iter().map(|n| connection(n, "root", "host", None)).collect();
    assert_eq!(state(records, "we").filtered_indices, first);
}

#[test]
fn the_filter_puts_the_cursor_at_the_top() {
    let records = vec![
        connection("a", "u", "h", None),
        connection("b", "u", "h", None),
        connection("c", "u", "h", None),
    ];
    let mut app = state(records, "");
    app.selected = 2;
    app.apply_filter();
    assert_eq!(app.selected, 0);
    assert!(app.well_formed());
}

#[test]
fn the_filter_changes_nothing_else() {
    let mut app = state(vec![connection("a", "u", "h", Some(1))], "a");
    app.status = "kept".to_string();
    app.add_buffer = "line".to_string();
    app.show_help = true;
    app.apply_filter();
    assert_eq!(app.connections.len(), 1);
    assert_eq!(app.connections[0].label(), "a  u@h:1");
    assert_eq!(app.search, "a");
    assert_eq!(app.status, "kept");
    assert_eq!(app.add_buffer, "line");
    assert!(app.show_help);
    assert!(!app.pending_delete);
}
