use research_ingest::clock::Timestamp;
use research_ingest::incoming::{
    copy_into_incoming, copy_path_at, payload_path, pending_copy, sanitize, stamped_path, stdin_path,
    takes, zotero_path, zotero_path_at, Dropped,
};
use research_ingest::vault::{
    can_show, first_snippet, is_note_file, upsert_bullet_line, upsert_project, Entry, NoteSearch,
    VaultPaths, INDEX_SEED,
};

fn v() -> VaultPaths {
    VaultPaths::new("/v".to_string())
}

fn now() -> Timestamp {
    Timestamp { secs: 1_700_000_000, nanos: 0 }
}

#[test]
fn layout_of_a_vault() {
    let p = v().ensure_layout();
    assert_eq!(
        p.dirs,
        ["/v/raw/incoming", "/v/raw/processed", "/v/raw/extracts", "/v/wiki/projects", "/v/wiki"]
    );
    let files: Vec<&str> = p.files.iter().map(|s| s.path.as_str()).collect();
    assert_eq!(
        files,
        ["/v/index.md", "/v/map-of-content.md", "/v/wiki/inbox.md", "/v/raw/incoming/README.md"]
    );
    assert_eq!(
        p.files[0].body,
        "# Knowledge index\n\nThis file lists research projects. The ingest tool updates this file.\n\n## Projects\n\n(none yet)\n"
    );
    assert!(p.files[1].body.starts_with("# Map of content\n\nHigh-level map"));
    assert!(p.files[2].body.ends_with("appear here.\n"));
    assert!(p.files[3].body.contains("**Send to Grok Research**"));
    assert_eq!(v().project_dir("x"), "/v/wiki/projects/x");
    assert_eq!(v().inbox_md(), "/v/wiki/inbox.md");
}

#[test]
fn projects_are_listed_sorted() {
    let e = |name: &str, is_dir: bool| Entry { name: name.to_string(), is_dir };
    let slugs = VaultPaths::list_project_slugs(&vec![
        e("b", true),
        e(".git", true),
        e("note.md", false),
        e("a", true),
    ]);
    assert_eq!(slugs, ["a", "b"]);
}

#[test]
fn a_new_project() {
    let p = v().project_plan("lift", "Lift \"A\"", now());
    assert_eq!(p.dir, "/v/wiki/projects/lift");
    assert_eq!(p.note_path, "/v/wiki/projects/lift/_project.md");
    assert_eq!(
        p.note_body,
        "---\ntitle: \"Lift \"A\"\"\nslug: \"lift\"\ncreated: 2023-11-14\n---\n\n# Lift \"A\"\n\n## Sources\n\n## Notes\n\n"
    );
    assert_eq!(p.link, "- [[lift/_project|Lift \"A\"]]");
    let q = v().ensure_project("lift", "Lift");
    assert_eq!(q.link, "- [[lift/_project|Lift]]");
    assert!(q.note_body.contains("created: 20"));
}

#[test]
fn finished_sources_are_moved() {
    assert_eq!(v().move_to_processed("/v/raw/incoming/a.md", "7"), "/v/raw/processed/7_a.md");
    assert_eq!(v().move_to_processed("/", "7"), "/v/raw/processed/7_item.bin");
}

#[test]
fn projects_are_put_into_the_index_once() {
    let link = "- [[a/_project|A]]";
    let one = upsert_project(Some(INDEX_SEED), link).unwrap();
    assert_eq!(
        one,
        "# Knowledge index\n\nThis file lists research projects. The ingest tool updates this file.\n\n## Projects\n- [[a/_project|A]]\n\n"
    );
    assert!(upsert_project(Some(&one), link).is_none());
    let two = upsert_project(Some(&one), "- [[b/_project|B]]").unwrap();
    assert!(two.contains(link));
    assert!(two.contains("## Projects\n- [[b/_project|B]]\n- [[a/_project|A]]\n"));
    assert_eq!(upsert_project(None, link).unwrap(), "## Projects\n- [[a/_project|A]]\n\n");
    assert_eq!(upsert_bullet_line(Some("x"), "## P", "- b").unwrap(), "x\n## P\n\n- b\n");
    assert_eq!(upsert_bullet_line(Some("## P"), "## P", "- b").unwrap(), "## P- b\n");
}

#[test]
fn snippets_of_notes() {
    let text = format!("{}needle\nand {}", "x".repeat(50), "y".repeat(100));
    let s = first_snippet(&text, "needle", 160);
    assert_eq!(s, format!("{}needle and {}", "x".repeat(40), "y".repeat(75)));
    assert_eq!(first_snippet("NeeDLE", "needle", 3), "Nee");
    assert_eq!(first_snippet("abc\nd", "zz", 4), "abc\n");
    assert!(can_show(&text, "needle"));
    let wide = format!("{}xneedle", "é".repeat(25));
    assert!(!can_show(&wide, "needle"));
}

#[test]
fn searching_notes_stops_at_the_limit() {
    let mut s = NoteSearch::new("NEEDLE", 2);
    assert!(s.can_offer("a needle"));
    assert!(!s.offer("a.md", "a needle"));
    assert!(!s.offer("b.md", "nothing"));
    assert!(s.offer("c.md", "Needle\nhere"));
    let hits = s.finish();
    assert_eq!(hits.len(), 2);
    assert_eq!(hits[1].path, "c.md");
    assert_eq!(hits[1].snippet, "Needle here");
    let mut none = NoteSearch::new("x", 0);
    assert!(none.offer("a.md", "x"));
    assert!(is_note_file("a/b.MD"));
    assert!(!is_note_file("a/b.txt"));
    assert!(!is_note_file("md"));
}

#[test]
fn names_of_dropped_files() {
    assert_eq!(sanitize("Hello, World!"), "hello--world");
    assert_eq!(sanitize("../../etc/passwd"), "etc-passwd");
    assert_eq!(sanitize("??"), "clip");
    assert_eq!(sanitize(&"a".repeat(50)), "a".repeat(40));
    let id = 0x0123_4567_89ab_cdef_0123_4567_89ab_cdef;
    assert_eq!(
        stamped_path(&v(), "Hi", "json", now(), id),
        "/v/raw/incoming/20231114T221320Z-hi-01234567.json"
    );
    assert_eq!(copy_path_at(&v(), "/x/a.pdf", now()), "/v/raw/incoming/20231114T221320Z-a.pdf");
    assert_eq!(
        zotero_path_at(&v(), "/x/a.pdf", now()),
        "/v/raw/incoming/zotero-20231114T221320Z-a.pdf"
    );
    assert_eq!(
        zotero_path_at(&v(), "/", now()),
        "/v/raw/incoming/zotero-20231114T221320Z-zotero.bin"
    );
    let p = payload_path(&v(), &None);
    assert!(p.starts_with("/v/raw/incoming/2") && p.contains("-clip-") && p.ends_with(".json"));
    assert!(payload_path(&v(), &None) != p);
    assert!(stdin_path(&v(), "N", "md").contains("-n-"));
    assert!(zotero_path(&v(), "a.bib").ends_with("-a.bib"));
    assert!(copy_into_incoming(&v(), "/x/a.pdf", true).unwrap().ends_with("-a.pdf"));
    assert_eq!(copy_into_incoming(&v(), "/x", false), Err("not a file: /x".to_string()));
}

#[test]
fn files_of_an_export() {
    assert!(takes("a.BIB", false) && takes("a.json", false) && takes("a.csv", false));
    assert!(takes("a.pdf", true) && !takes("a.pdf", false) && !takes("a.txt", true));
    let d = |path: &str, len: Option<u64>| Dropped { path: path.to_string(), len };
    let files = vec![
        d("/v/raw/incoming/zotero-1-a.bib", Some(3)),
        d("/v/raw/incoming/zotero-2-a.bib", None),
        d("/v/raw/incoming/zotero-3-a.bib", Some(5)),
    ];
    assert_eq!(
        pending_copy(&files, "/x/a.bib", Some(5)).as_deref(),
        Some("/v/raw/incoming/zotero-3-a.bib")
    );
    assert_eq!(pending_copy(&files, "/x/a.bib", Some(4)), None);
    assert_eq!(pending_copy(&files, "/x/a.bib", None), None);
    assert_eq!(pending_copy(&files, "/x/c.bib", Some(5)), None);
}

#[test]
fn only_copies_of_the_same_file_wait() {
    let d = |path: &str| vec![Dropped { path: path.to_string(), len: Some(3) }];
    let waits = |name: &str, src: &str| {
        pending_copy(&d(&format!("/v/raw/incoming/{name}")), src, Some(3)).is_some()
    };
    assert!(!waits("zotero-20260101T000000Z-beta.pdf", "/z/a.pdf"));
    assert!(waits("zotero-20260101T000000Z-beta.pdf", "/z/beta.pdf"));
    assert!(waits("a.pdf", "/z/a.pdf"));
    assert!(!waits("beta.pdf", "/z/a.pdf"));
    assert!(!waits("x-a.pdf", "/z/a.pdf"));
    assert!(!waits("zotero-20260101T000000Z-b-a.pdf", "/z/a.pdf"));
    assert!(waits("zotero-20260101T000000Z-b-a.pdf", "/z/b-a.pdf"));
    assert!(waits("zotero--a.pdf", "/z/a.pdf"));
    assert!(!waits("zotero-a.pdf", "/z/a.pdf"));
    let copy = zotero_path_at(&v(), "/z/a.pdf", now());
    assert!(pending_copy(&d(&copy), "/z/a.pdf", Some(3)).is_some());
}

#[test]
fn existing_files_are_kept() {
    let plan = v().ensure_layout();
    let all: Vec<String> = plan.files.iter().map(|f| f.path.clone()).collect();
    assert_eq!(plan.missing(&Vec::new()).len(), 4);
    assert_eq!(plan.missing(&all).len(), 0);
    let left = plan.missing(&vec!["/v/index.md".to_string(), "/v/wiki/inbox.md".to_string()]);
    let paths: Vec<&str> = left.iter().map(|f| f.path.as_str()).collect();
    assert_eq!(paths, ["/v/map-of-content.md", "/v/raw/incoming/README.md"]);
    assert_eq!(left[0].body, plan.files[1].body);
}

#[test]
fn projects_are_set_up_once() {
    let plan = v().project_plan("lift", "Lift", now());
    let first = v().project_writes(&plan, false, Some(INDEX_SEED), None);
    let paths: Vec<&str> = first.iter().map(|f| f.path.as_str()).collect();
    assert_eq!(
        paths,
        ["/v/wiki/projects/lift/_project.md", "/v/index.md", "/v/map-of-content.md"]
    );
    assert_eq!(first[0].body, plan.note_body);
    assert!(first[1].body.contains("- [[lift/_project|Lift]]\n"));
    assert_eq!(first[2].body, "## Projects\n- [[lift/_project|Lift]]\n\n");
    let again = v().project_writes(&plan, true, Some(&first[1].body), Some(&first[2].body));
    assert!(again.is_empty());
}
