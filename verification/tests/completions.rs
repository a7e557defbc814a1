use launchkeeper::completions::names_completing;

#[test]
fn names_are_completed_by_prefix_in_order() {
    let names = vec!["sync".to_string(), "backup".to_string(), "sync.daily".to_string()];
    assert_eq!(names_completing(&names, "sy"), vec!["sync".to_string(), "sync.daily".to_string()]);
    assert_eq!(names_completing(&names, ""), names);
    assert!(names_completing(&names, "z").is_empty());
    assert!(names_completing(&[].to_vec(), "s").is_empty());
}
