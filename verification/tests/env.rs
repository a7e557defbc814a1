use launchkeeper::env::{env_set, env_unset};

#[test]
fn setting_replaces_in_place_and_unsetting_removes() {
    let mut env = vec![("A".to_string(), "1".to_string())];
    env_set(&mut env, &"B".to_string(), &"2".to_string());
    env_set(&mut env, &"A".to_string(), &"3".to_string());
    assert_eq!(env, vec![("A".to_string(), "3".to_string()), ("B".to_string(), "2".to_string())]);
    env_unset(&mut env, &"A".to_string());
    assert_eq!(env, vec![("B".to_string(), "2".to_string())]);
    env_unset(&mut env, &"Z".to_string());
    assert_eq!(env, vec![("B".to_string(), "2".to_string())]);
}
