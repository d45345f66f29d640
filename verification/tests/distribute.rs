use commander_core::raw::Argument;
use commander_core::raw::ArgumentType;
use commander_core::raw::Raw;

fn toks(words: &[&str]) -> Vec<String> {
    words.iter().map(|w| w.to_string()).collect()
}

fn args(kinds: &[ArgumentType]) -> Vec<Argument> {
    kinds.iter().map(|k| Argument { ty: *k }).collect()
}

fn group_tokens(raw: &Raw) -> Vec<String> {
    let mut out = Vec::new();
    let mut i = 0;
    while i < raw.len() {
        out.push(raw.get(i).clone());
        i += 1;
    }
    out
}

#[test]
fn one_group_per_descriptor() {
    let tokens = toks(&["a", "b"]);
    let descriptors = args(&[
        ArgumentType::RequiredSingle,
        ArgumentType::OptionalSingle,
        ArgumentType::RequiredSingle,
        ArgumentType::OptionalMultiple,
    ]);
    let groups = Raw::divide_cmd(&tokens, &descriptors);
    assert_eq!(groups.len(), 4);
}

#[test]
fn singles_take_one_token_each_in_order() {
    let tokens = toks(&["a", "b", "c"]);
    let descriptors = args(&[
        ArgumentType::RequiredSingle,
        ArgumentType::OptionalSingle,
        ArgumentType::RequiredSingle,
    ]);
    let groups = Raw::divide_cmd(&tokens, &descriptors);
    assert_eq!(group_tokens(&groups[0]), vec!["a".to_string()]);
    assert_eq!(group_tokens(&groups[1]), vec!["b".to_string()]);
    assert_eq!(group_tokens(&groups[2]), vec!["c".to_string()]);
}

#[test]
fn exhausted_cursor_yields_empty_groups() {
    let tokens = toks(&["a"]);
    let descriptors = args(&[
        ArgumentType::RequiredSingle,
        ArgumentType::RequiredSingle,
        ArgumentType::OptionalSingle,
    ]);
    let groups = Raw::divide_cmd(&tokens, &descriptors);
    assert_eq!(group_tokens(&groups[0]), vec!["a".to_string()]);
    assert!(groups[1].is_empty());
    assert!(groups[2].is_empty());
}

#[test]
fn multiple_drains_every_remaining_token() {
    let tokens = toks(&["a", "b", "c", "d"]);
    let descriptors = args(&[ArgumentType::RequiredSingle, ArgumentType::RequiredMultiple]);
    let groups = Raw::divide_cmd(&tokens, &descriptors);
    assert_eq!(group_tokens(&groups[0]), vec!["a".to_string()]);
    assert_eq!(
        group_tokens(&groups[1]),
        vec!["b".to_string(), "c".to_string(), "d".to_string()]
    );
}

#[test]
fn descriptor_after_multiple_receives_empty_group() {
    let tokens = toks(&["a", "b", "c"]);
    let descriptors = args(&[
        ArgumentType::OptionalMultiple,
        ArgumentType::RequiredSingle,
        ArgumentType::RequiredMultiple,
    ]);
    let groups = Raw::divide_cmd(&tokens, &descriptors);
    assert_eq!(
        group_tokens(&groups[0]),
        vec!["a".to_string(), "b".to_string(), "c".to_string()]
    );
    assert!(groups[1].is_empty());
    assert!(groups[2].is_empty());
}

#[test]
fn concatenated_groups_restore_consumed_prefix() {
    let tokens = toks(&["a", "b", "c", "d"]);
    let descriptors = args(&[ArgumentType::RequiredSingle, ArgumentType::OptionalSingle]);
    let groups = Raw::divide_cmd(&tokens, &descriptors);
    let mut rebuilt = Vec::new();
    for g in &groups {
        rebuilt.extend(group_tokens(g));
    }
    assert_eq!(rebuilt, vec!["a".to_string(), "b".to_string()]);
}

#[test]
fn round_trip_required_single_then_optional_multiple() {
    let tokens = toks(&["a", "b", "c"]);
    let descriptors = args(&[ArgumentType::RequiredSingle, ArgumentType::OptionalMultiple]);
    let groups = Raw::divide_cmd(&tokens, &descriptors);
    assert_eq!(groups.len(), 2);
    assert_eq!(group_tokens(&groups[0]), vec!["a".to_string()]);
    assert_eq!(group_tokens(&groups[1]), vec!["b".to_string(), "c".to_string()]);
}

#[test]
fn empty_token_sequence_gives_all_empty_groups() {
    let tokens = toks(&[]);
    let descriptors = args(&[
        ArgumentType::RequiredSingle,
        ArgumentType::RequiredMultiple,
        ArgumentType::OptionalSingle,
    ]);
    let groups = Raw::divide_cmd(&tokens, &descriptors);
    assert_eq!(groups.len(), 3);
    for g in &groups {
        assert!(g.is_empty());
    }
}

#[test]
fn empty_descriptor_list_gives_no_groups() {
    let tokens = toks(&["a", "b"]);
    let groups = Raw::divide_cmd(&tokens, &args(&[]));
    assert_eq!(groups.len(), 0);
}

#[test]
fn divide_opt_without_descriptor_is_empty() {
    let tokens = toks(&["a", "b", "c"]);
    let group = Raw::divide_opt(&tokens, &None);
    assert!(group.is_empty());
    let no_tokens = toks(&[]);
    let group = Raw::divide_opt(&no_tokens, &None);
    assert!(group.is_empty());
}

#[test]
fn divide_opt_single_takes_first_token() {
    let tokens = toks(&["x", "y"]);
    let arg = Some(Argument { ty: ArgumentType::RequiredSingle });
    let group = Raw::divide_opt(&tokens, &arg);
    assert_eq!(group_tokens(&group), vec!["x".to_string()]);
    let arg = Some(Argument { ty: ArgumentType::OptionalSingle });
    let group = Raw::divide_opt(&tokens, &arg);
    assert_eq!(group_tokens(&group), vec!["x".to_string()]);
}

#[test]
fn divide_opt_single_on_no_tokens_is_empty() {
    let tokens = toks(&[]);
    let arg = Some(Argument { ty: ArgumentType::RequiredSingle });
    let group = Raw::divide_opt(&tokens, &arg);
    assert!(group.is_empty());
}

#[test]
fn divide_opt_multiple_takes_every_token() {
    let tokens = toks(&["x", "y", "z"]);
    let arg = Some(Argument { ty: ArgumentType::RequiredMultiple });
    let group = Raw::divide_opt(&tokens, &arg);
    assert_eq!(
        group_tokens(&group),
        vec!["x".to_string(), "y".to_string(), "z".to_string()]
    );
    let arg = Some(Argument { ty: ArgumentType::OptionalMultiple });
    let group = Raw::divide_opt(&tokens, &arg);
    assert_eq!(
        group_tokens(&group),
        vec!["x".to_string(), "y".to_string(), "z".to_string()]
    );
}

#[test]
fn raw_push_remove_and_emptiness() {
    let mut raw = Raw::new(Vec::new());
    assert!(raw.is_empty());
    assert_eq!(raw.len(), 0);
    raw.push("a".to_string());
    raw.push("b".to_string());
    raw.push("c".to_string());
    assert!(!raw.is_empty());
    assert_eq!(raw.len(), 3);
    assert_eq!(raw.get(1), "b");
    let removed = raw.remove(1);
    assert_eq!(removed, "b".to_string());
    assert_eq!(raw.len(), 2);
    assert_eq!(raw.get(0), "a");
    assert_eq!(raw.get(1), "c");
}

#[test]
fn raw_new_wraps_tokens() {
    let raw = Raw::new(toks(&["p", "q"]));
    assert_eq!(raw.len(), 2);
    assert_eq!(raw.get(0), "p");
    assert_eq!(raw.get(1), "q");
}
