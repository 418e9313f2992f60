use instant_karma::watch::{sse_admitted, ModifiedFlags};

#[test]
fn a_change_is_reported_once() {
    let mut f = ModifiedFlags::new();
    assert!(!f.take_modified("a.md"));
    f.mark_modified("a.md");
    assert!(f.is_modified("a.md"));
    assert!(f.take_modified("a.md"));
    assert!(!f.take_modified("a.md"));
    assert!(!f.is_modified("a.md"));
}

#[test]
fn flags_are_per_path() {
    let mut f = ModifiedFlags::new();
    f.mark_modified("a");
    assert!(!f.take_modified("b"));
    assert!(f.take_modified("a"));
}

#[test]
fn only_ok_events_mark_a_change() {
    let mut f = ModifiedFlags::new();
    f.record_event("p", false);
    assert!(!f.is_modified("p"));
    f.record_event("p", true);
    assert!(f.take_modified("p"));
}

#[test]
fn sse_is_refused_only_when_the_lookup_failed() {
    let found: Result<Option<String>, String> = Ok(Some("x".to_string()));
    let missing: Result<Option<String>, String> = Ok(None);
    let failed: Result<Option<String>, String> = Err("db".to_string());
    assert!(sse_admitted(&found));
    assert!(sse_admitted(&missing));
    assert!(!sse_admitted(&failed));
}

#[test]
fn paths_with_the_same_components_share_a_flag() {
    let mut f = ModifiedFlags::new();
    f.mark_modified("a//b");
    assert!(f.is_modified("a/b"));
    assert!(f.is_modified("a/./b/"));
    assert!(f.take_modified("a/b"));
    assert!(!f.is_modified("a//b"));
    assert!(!f.is_modified("a/c"));
}
