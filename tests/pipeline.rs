use gh_showcase::colors::{color_table_from_document, strip_newlines, ColorTable};
use gh_showcase::gh::GithubApiError;
use gh_showcase::paginate::{Page, Paginator, Progress};
use gh_showcase::repos::{assemble, join_colors, LoadState, Owner, Repo, RepoCycle};

fn page(items: &[&str], link: Option<&str>) -> Page<String> {
    Page {
        items: items.iter().map(|s| s.to_string()).collect(),
        link: link.map(|l| l.to_string()),
    }
}

fn repo(name: &str, language: Option<&str>) -> Repo {
    Repo {
        name: name.to_string(),
        node_id: format!("id-{name}"),
        html_url: format!("https://github.com/o/{name}"),
        description: None,
        language: language.map(|l| l.to_string()),
        created_at: 1600000000,
        updated_at: 1700000000,
        owner: Owner {
            login: "o".to_string(),
            avatar_url: "https://avatars/o".to_string(),
            html_url: "https://github.com/o".to_string(),
        },
    }
}

fn document(payload: &str) -> String {
    let encoded = base64::encode(payload.as_bytes());
    // the API wraps its base64 content every 60 characters
    let mut wrapped = String::new();
    for (i, c) in encoded.chars().enumerate() {
        if i > 0 && i % 60 == 0 {
            wrapped.push_str("\\n");
        }
        wrapped.push(c);
    }
    format!("{{\"encoding\":\"base64\",\"content\":\"{wrapped}\"}}")
}

fn table(pairs: &[(&str, &str)]) -> ColorTable {
    ColorTable::from_members(
        pairs.iter().map(|(k, v)| (k.to_string(), Some(v.to_string()))).collect(),
    )
}

#[test]
fn two_pages_concatenate_in_order() {
    let p = Paginator::start("url1".to_string());
    assert_eq!(p.url, "url1");
    let p = match p.advance(Ok(page(&["A", "B"], Some("<url2>; rel=\"next\"")))) {
        Progress::Next(p) => p,
        Progress::Finished(_) => panic!("expected a second page"),
    };
    assert_eq!(p.url, "url2");
    match p.advance(Ok(page(&["C"], None))) {
        Progress::Finished(Ok(items)) => assert_eq!(items, vec!["A", "B", "C"]),
        _ => panic!("expected the end"),
    }
}

#[test]
fn missing_link_header_ends_after_one_fetch() {
    match Paginator::start("u".to_string()).advance(Ok(page(&["A"], None))) {
        Progress::Finished(Ok(items)) => assert_eq!(items, vec!["A"]),
        _ => panic!("expected the end"),
    }
}

#[test]
fn link_without_next_ends_fetch() {
    let last = Some("<u1>; rel=\"first\", <u1>; rel=\"prev\"");
    match Paginator::start("u".to_string()).advance(Ok(page(&[], last))) {
        Progress::Finished(Ok(items)) => assert!(items.is_empty()),
        _ => panic!("expected the end"),
    }
}

#[test]
fn many_pages_concatenate() {
    let mut p = Paginator::start("p0".to_string());
    for n in 1..5 {
        let link = format!("<p{n}>; rel=\"next\"");
        p = match p.advance(Ok(page(&[&format!("i{n}")], Some(&link)))) {
            Progress::Next(p) => p,
            Progress::Finished(_) => panic!("expected another page"),
        };
        assert_eq!(p.url, format!("p{n}"));
    }
    match p.advance(Ok(page(&["last"], None))) {
        Progress::Finished(Ok(items)) => assert_eq!(items, vec!["i1", "i2", "i3", "i4", "last"]),
        _ => panic!("expected the end"),
    }
}

#[test]
fn page_error_discards_gathered_items() {
    let p = match Paginator::start("u".to_string()).advance(Ok(page(&["A"], Some("<v>; rel=\"next\"")))) {
        Progress::Next(p) => p,
        Progress::Finished(_) => panic!("expected a second page"),
    };
    match p.advance(Err(GithubApiError::RateLimited { until: 1700000000 })) {
        Progress::Finished(Err(e)) => assert_eq!(e, GithubApiError::RateLimited { until: 1700000000 }),
        _ => panic!("expected the error"),
    }
}

#[test]
fn color_document_drops_entries_without_color() {
    let doc = document(
        "{\"Rust\":{\"color\":\"#dea584\",\"url\":\"r\"},\"Brainfuck\":{\"url\":\"b\"},\"Go\":{\"color\":\"#00ADD8\"},\"Odd\":{\"color\":7}}",
    );
    let t = color_table_from_document(&doc).ok().unwrap();
    assert_eq!(t.get(&"Rust".to_string()).as_deref(), Some("#dea584"));
    assert_eq!(t.get(&"Go".to_string()).as_deref(), Some("#00ADD8"));
    assert_eq!(t.get(&"Brainfuck".to_string()), None);
    assert_eq!(t.get(&"Odd".to_string()), None);
    assert_eq!(t.get(&"Python".to_string()), None);
}

#[test]
fn color_document_long_content_with_newlines() {
    let mut payload = String::from("{");
    for i in 0..40 {
        if i > 0 {
            payload.push(',');
        }
        payload.push_str(&format!("\"Lang{i}\":{{\"color\":\"#{i:06}\"}}"));
    }
    payload.push('}');
    let doc = document(&payload);
    assert!(doc.contains("\\n"));
    let t = color_table_from_document(&doc).ok().unwrap();
    assert_eq!(t.get(&"Lang0".to_string()).as_deref(), Some("#000000"));
    assert_eq!(t.get(&"Lang39".to_string()).as_deref(), Some("#000039"));
}

#[test]
fn color_document_wrong_encoding_is_malformed() {
    let doc = "{\"encoding\":\"utf-8\",\"content\":\"{}\"}";
    assert_eq!(color_table_from_document(doc).err(), Some(GithubApiError::MalformedResponse));
}

#[test]
fn color_document_missing_content_is_malformed() {
    let doc = "{\"encoding\":\"base64\"}";
    assert_eq!(color_table_from_document(doc).err(), Some(GithubApiError::MalformedResponse));
}

#[test]
fn color_document_bad_base64_is_malformed() {
    let doc = "{\"encoding\":\"base64\",\"content\":\"@@@@\"}";
    assert_eq!(color_table_from_document(doc).err(), Some(GithubApiError::MalformedResponse));
}

#[test]
fn color_document_payload_not_object_is_malformed() {
    let doc = document("[1, 2, 3]");
    assert_eq!(color_table_from_document(&doc).err(), Some(GithubApiError::MalformedResponse));
    let doc = document("not json");
    assert_eq!(color_table_from_document(&doc).err(), Some(GithubApiError::MalformedResponse));
}

#[test]
fn color_document_not_json_is_malformed() {
    assert_eq!(color_table_from_document("nope").err(), Some(GithubApiError::MalformedResponse));
}

#[test]
fn base64_payload_round_trip() {
    let payload = "{\"Rust\":{\"color\":\"#dea584\"},\"C\":{\"color\":\"#555555\"}}";
    let encoded = base64::encode(payload.as_bytes());
    let with_newlines = format!("{}\n{}\n", &encoded[..20], &encoded[20..]);
    let stripped = strip_newlines(with_newlines.as_bytes());
    assert_eq!(stripped, encoded.as_bytes());
    let decoded = base64::decode(&stripped).unwrap();
    assert_eq!(decoded, payload.as_bytes());
    assert_eq!(base64::encode(&decoded).as_bytes(), &stripped[..]);
}

#[test]
fn strips_only_newlines() {
    assert_eq!(strip_newlines(b"ab\ncd\n\n"), b"abcd".to_vec());
    assert_eq!(strip_newlines(b""), Vec::<u8>::new());
    assert_eq!(strip_newlines(b"a\r\nb"), b"a\rb".to_vec());
}

#[test]
fn members_without_color_are_absent() {
    let t = ColorTable::from_members(vec![
        ("Rust".to_string(), Some("#dea584".to_string())),
        ("Text".to_string(), None),
    ]);
    assert_eq!(t.get(&"Rust".to_string()).as_deref(), Some("#dea584"));
    assert_eq!(t.get(&"Text".to_string()), None);
}

#[test]
fn join_keeps_order_and_colors() {
    let t = table(&[("Rust", "#dea584"), ("Go", "#00ADD8")]);
    let joined = join_colors(&t, vec![repo("a", Some("Go")), repo("b", None), repo("c", Some("Rust")), repo("d", Some("COBOL"))]);
    let names: Vec<&str> = joined.iter().map(|j| j.repo.name.as_str()).collect();
    assert_eq!(names, vec!["a", "b", "c", "d"]);
    assert_eq!(joined[0].color.as_deref(), Some("#00ADD8"));
    assert_eq!(joined[1].color, None);
    assert_eq!(joined[2].color.as_deref(), Some("#dea584"));
    assert_eq!(joined[3].color, None);
}

#[test]
fn join_of_nothing_is_empty() {
    let t = table(&[("Rust", "#dea584")]);
    assert!(join_colors(&t, vec![]).is_empty());
}

#[test]
fn assemble_groups_by_account_order() {
    let t = table(&[("Rust", "#dea584")]);
    let r = assemble(
        vec!["first".to_string(), "second".to_string()],
        Ok(t),
        vec![Ok(vec![repo("x", Some("Rust"))]), Ok(vec![repo("y", None), repo("z", Some("Rust"))])],
    )
    .ok()
    .unwrap();
    assert_eq!(r.len(), 2);
    assert_eq!(r[0].0, "first");
    assert_eq!(r[1].0, "second");
    assert_eq!(r[0].1[0].repo.name, "x");
    assert_eq!(r[0].1[0].color.as_deref(), Some("#dea584"));
    assert_eq!(r[1].1[0].repo.name, "y");
    assert_eq!(r[1].1[0].color, None);
    assert_eq!(r[1].1[1].repo.name, "z");
}

#[test]
fn assemble_color_error_wins() {
    let r = assemble(
        vec!["a".to_string()],
        Err(GithubApiError::MalformedResponse),
        vec![Err(GithubApiError::Net("down".to_string()))],
    );
    assert_eq!(r.err(), Some(GithubApiError::MalformedResponse));
}

#[test]
fn assemble_first_account_error_wins() {
    let r = assemble(
        vec!["a".to_string(), "b".to_string(), "c".to_string()],
        Ok(table(&[])),
        vec![
            Ok(vec![repo("x", None)]),
            Err(GithubApiError::RateLimited { until: 5 }),
            Err(GithubApiError::Net("down".to_string())),
        ],
    );
    assert_eq!(r.err(), Some(GithubApiError::RateLimited { until: 5 }));
}

#[test]
fn refetch_discards_stale_result() {
    let mut c = RepoCycle::new();
    let first = c.generation;
    let second = c.refetch();
    assert_ne!(first, second);
    assert!(!c.publish(first, Err(GithubApiError::Net("stale".to_string()))));
    assert!(matches!(c.state, LoadState::Loading));
    assert!(c.publish(second, Ok(vec![])));
    assert!(matches!(&c.state, LoadState::Loaded(Ok(v)) if v.is_empty()));
    assert!(!c.publish(first, Err(GithubApiError::Net("stale".to_string()))));
    assert!(matches!(&c.state, LoadState::Loaded(Ok(v)) if v.is_empty()));
}

#[test]
fn refetch_clears_published_state() {
    let mut c = RepoCycle::new();
    assert!(c.publish(0, Err(GithubApiError::MalformedResponse)));
    let g = c.refetch();
    assert_eq!(g, 1);
    assert!(matches!(c.state, LoadState::Loading));
}
