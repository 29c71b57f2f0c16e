use fme::frontmatter::Frontmatter;
use fme::transform::has_tag;
use serde_yaml::Value;

fn list(items: &[&str]) -> Vec<String> {
    items.iter().map(|s| s.to_string()).collect()
}

fn with_tags(tags: Option<Vec<String>>) -> Frontmatter {
    Frontmatter {
        id: Some("n".to_string()),
        aliases: Some(list(&["one"])),
        tags,
        other: vec![("k".to_string(), Value::Bool(true))],
    }
}

#[test]
fn frontmatter_add_tags_appends_new_tags_in_the_given_order() {
    let mut frontmatter = with_tags(Some(list(&["b", "a"])));
    assert!(frontmatter.add_tags(&list(&["d", "a", "c", "d"])));
    assert_eq!(frontmatter, with_tags(Some(list(&["b", "a", "d", "c"]))));
}

#[test]
fn frontmatter_add_tags_without_a_new_tag_changes_nothing() {
    let mut frontmatter = with_tags(Some(list(&["b", "a"])));
    assert!(!frontmatter.add_tags(&list(&["a", "b"])));
    assert_eq!(frontmatter, with_tags(Some(list(&["b", "a"]))));
    assert!(!frontmatter.add_tags(&[]));
    assert_eq!(frontmatter, with_tags(Some(list(&["b", "a"]))));
    let mut frontmatter = with_tags(None);
    assert!(!frontmatter.add_tags(&[]));
    assert_eq!(frontmatter, with_tags(None));
}

#[test]
fn frontmatter_add_tags_makes_the_field_where_it_is_absent() {
    let mut frontmatter = with_tags(None);
    assert!(frontmatter.add_tags(&list(&["x"])));
    assert_eq!(frontmatter, with_tags(Some(list(&["x"]))));
}

#[test]
fn frontmatter_add_tags_compares_tags_exactly() {
    let mut frontmatter = with_tags(Some(list(&["Tag"])));
    assert!(frontmatter.add_tags(&list(&["tag", "Tag ", "Ta"])));
    assert_eq!(frontmatter, with_tags(Some(list(&["Tag", "tag", "Tag ", "Ta"]))));
}

#[test]
fn frontmatter_add_tags_a_second_time_changes_nothing() {
    let tags = list(&["x", "y", "x"]);
    let mut frontmatter = with_tags(Some(list(&["a"])));
    assert!(frontmatter.add_tags(&tags));
    let once = frontmatter.clone();
    assert!(!frontmatter.add_tags(&tags));
    assert_eq!(frontmatter, once);
}

#[test]
fn frontmatter_add_tags_keeps_tags_that_were_doubled_before() {
    let mut frontmatter = with_tags(Some(list(&["a", "a"])));
    assert!(frontmatter.add_tags(&list(&["a", "b"])));
    assert_eq!(frontmatter, with_tags(Some(list(&["a", "a", "b"]))));
}

#[test]
fn frontmatter_remove_tags_removes_every_occurrence() {
    let mut frontmatter = with_tags(Some(list(&["a", "b", "a", "c"])));
    assert!(frontmatter.remove_tags(&list(&["a", "x"])));
    assert_eq!(frontmatter, with_tags(Some(list(&["b", "c"]))));
}

#[test]
fn frontmatter_remove_tags_of_all_tags_removes_the_field() {
    let mut frontmatter = with_tags(Some(list(&["a", "b"])));
    assert!(frontmatter.remove_tags(&list(&["b", "a"])));
    assert_eq!(frontmatter, with_tags(None));
}

#[test]
fn frontmatter_remove_tags_without_a_match_changes_nothing() {
    let mut frontmatter = with_tags(Some(list(&["a", "b"])));
    assert!(!frontmatter.remove_tags(&list(&["c"])));
    assert!(!frontmatter.remove_tags(&[]));
    assert_eq!(frontmatter, with_tags(Some(list(&["a", "b"]))));
    let mut frontmatter = with_tags(None);
    assert!(!frontmatter.remove_tags(&list(&["a"])));
    assert_eq!(frontmatter, with_tags(None));
    let mut frontmatter = with_tags(Some(vec![]));
    assert!(!frontmatter.remove_tags(&list(&["a"])));
    assert_eq!(frontmatter, with_tags(Some(vec![])));
}

#[test]
fn frontmatter_replace_tags_removes_tags_inside_the_searched_text() {
    let mut frontmatter = with_tags(Some(list(&["foo", "oo", "f", "food", "keep", ""])));
    assert!(frontmatter.replace_tags(&"foo".to_string(), &"bar".to_string()));
    assert_eq!(frontmatter, with_tags(Some(list(&["food", "keep", "bar"]))));
}

#[test]
fn frontmatter_replace_tags_adds_the_new_tag_once() {
    let mut frontmatter = with_tags(Some(list(&["foo", "bar"])));
    assert!(frontmatter.replace_tags(&"foo".to_string(), &"bar".to_string()));
    assert_eq!(frontmatter, with_tags(Some(list(&["bar"]))));
    let mut frontmatter = with_tags(Some(list(&["foo"])));
    assert!(frontmatter.replace_tags(&"foo".to_string(), &"foo".to_string()));
    assert_eq!(frontmatter, with_tags(Some(list(&["foo"]))));
}

#[test]
fn frontmatter_replace_tags_without_a_match_changes_nothing() {
    let mut frontmatter = with_tags(Some(list(&["food", "keep"])));
    assert!(!frontmatter.replace_tags(&"foo".to_string(), &"bar".to_string()));
    assert_eq!(frontmatter, with_tags(Some(list(&["food", "keep"]))));
    let mut frontmatter = with_tags(None);
    assert!(!frontmatter.replace_tags(&"foo".to_string(), &"bar".to_string()));
    assert_eq!(frontmatter, with_tags(None));
}

#[test]
fn frontmatter_clear_tags_removes_the_field() {
    let mut frontmatter = with_tags(Some(list(&["a"])));
    assert!(frontmatter.clear_tags());
    assert_eq!(frontmatter, with_tags(None));
    let mut frontmatter = with_tags(Some(vec![]));
    assert!(frontmatter.clear_tags());
    assert_eq!(frontmatter, with_tags(None));
    assert!(!frontmatter.clear_tags());
    assert_eq!(frontmatter, with_tags(None));
}

#[test]
fn frontmatter_remove_blank_aliases_removes_only_an_empty_field() {
    let mut frontmatter = with_tags(None);
    assert!(!frontmatter.remove_blank_aliases());
    assert_eq!(frontmatter, with_tags(None));
    frontmatter.aliases = Some(vec![]);
    assert!(frontmatter.remove_blank_aliases());
    assert_eq!(frontmatter, Frontmatter { aliases: None, ..with_tags(None) });
    assert!(!frontmatter.remove_blank_aliases());
    assert_eq!(frontmatter, Frontmatter { aliases: None, ..with_tags(None) });
}

#[test]
fn frontmatter_remove_id_removes_the_identifier() {
    let mut frontmatter = with_tags(Some(list(&["a"])));
    assert!(frontmatter.remove_id());
    assert_eq!(frontmatter, Frontmatter { id: None, ..with_tags(Some(list(&["a"]))) });
    assert!(!frontmatter.remove_id());
    let mut frontmatter = Frontmatter { id: Some(String::new()), ..with_tags(None) };
    assert!(frontmatter.remove_id());
    assert_eq!(frontmatter.id, None);
}

#[test]
fn has_tag_compares_whole_tags() {
    let tags = list(&["alpha", "beta"]);
    assert!(has_tag(&tags, &"beta".to_string()));
    assert!(!has_tag(&tags, &"bet".to_string()));
    assert!(!has_tag(&[], &"".to_string()));
}
