use launchkeeper::ai::{Insight, InsightView};

#[test]
fn an_insight_view_stamps_the_time_in_rfc_3339() {
    let i = Insight {
        task_name: "sync".to_string(),
        created_at_ms: 1_789_000_000_123,
        model: "m".to_string(),
        prompt_hash: "abc".to_string(),
        content: "# ok".to_string(),
    };
    let v = InsightView::from_insight(&i);
    assert_eq!(v.task_name, "sync");
    assert_eq!(v.created_at, "2026-09-10T00:26:40.123Z");
    assert_eq!(v.model, "m");
    assert_eq!(v.prompt_hash, "abc");
    assert_eq!(v.content, "# ok");
}
