use twitchvod::error::Failure;
use twitchvod::substitutions::Substitutions;
use twitchvod::template::{is_blank_char, Template};

fn values(pairs: Vec<(&str, &str)>) -> Substitutions {
    let mut map = Substitutions::new();
    for (name, value) in pairs {
        map.insert(name, value.to_string());
    }
    map
}

fn render(source: &str, pairs: Vec<(&str, &str)>) -> Result<String, Failure> {
    Template::new(source).render(&values(pairs))
}

#[test]
fn a_known_placeholder_is_replaced() {
    assert_eq!(render("${url}", vec![("url", "X")]), Ok("X".to_string()));
    assert_eq!(render("echo", vec![("url", "X")]), Ok("echo".to_string()));
}

#[test]
fn an_unknown_placeholder_fails() {
    assert_eq!(render("${missing}", vec![("url", "X")]), Err(Failure::TemplateRenderError));
    assert_eq!(render("${url} ${missing}", vec![("url", "X")]), Err(Failure::TemplateRenderError));
    assert_eq!(render("${url}", vec![]), Err(Failure::TemplateRenderError));
}

#[test]
fn text_around_placeholders_stays() {
    assert_eq!(
        render("--title=${title} (${id})!", vec![("title", "A b"), ("id", "7")]),
        Ok("--title=A b (7)!".to_string())
    );
    assert_eq!(render("${a}${b}", vec![("a", "1"), ("b", "2")]), Ok("12".to_string()));
    assert_eq!(render("${a}${a}", vec![("a", "xy")]), Ok("xyxy".to_string()));
}

#[test]
fn text_without_placeholders_is_itself() {
    assert_eq!(render("", vec![]), Ok("".to_string()));
    assert_eq!(render("plain text", vec![]), Ok("plain text".to_string()));
    assert_eq!(render("$", vec![]), Ok("$".to_string()));
    assert_eq!(render("${", vec![]), Ok("${".to_string()));
    assert_eq!(render("${}", vec![]), Ok("${}".to_string()));
    assert_eq!(render("${url", vec![("url", "X")]), Ok("${url".to_string()));
    assert_eq!(render("$ {url}", vec![("url", "X")]), Ok("$ {url}".to_string()));
}

#[test]
fn braces_alone_are_no_placeholder() {
    assert_eq!(render("{url}", vec![("url", "X")]), Ok("{url}".to_string()));
    assert_eq!(render("$url", vec![("url", "X")]), Ok("$url".to_string()));
}

#[test]
fn blanks_may_surround_the_name() {
    assert_eq!(render("${ url }", vec![("url", "X")]), Ok("X".to_string()));
    assert_eq!(render("${\turl\n}", vec![("url", "X")]), Ok("X".to_string()));
    assert_eq!(render("${\u{a0}url\u{3000}}", vec![("url", "X")]), Ok("X".to_string()));
}

#[test]
fn a_name_holds_no_blank() {
    assert_eq!(render("${a b}", vec![("a", "1"), ("b", "2"), ("a b", "3")]), Ok("${a b}".to_string()));
    assert_eq!(render("${ }", vec![]), Ok("${ }".to_string()));
}

#[test]
fn a_name_has_at_least_one_character() {
    assert_eq!(render("${}}", vec![("}", "X")]), Ok("X".to_string()));
    assert_eq!(render("${}}", vec![]), Err(Failure::TemplateRenderError));
    assert_eq!(render("${}x}", vec![("}x", "X")]), Ok("X".to_string()));
}

#[test]
fn a_name_ends_at_the_first_closing_brace() {
    assert_eq!(render("${a}}", vec![("a", "X")]), Ok("X}".to_string()));
    assert_eq!(render("${a${b}", vec![("a${b", "X"), ("b", "Y")]), Ok("X".to_string()));
}

#[test]
fn a_failed_opening_is_text_and_the_search_goes_on() {
    assert_eq!(render("${a b} ${c}", vec![("c", "X")]), Ok("${a b} X".to_string()));
    assert_eq!(render("$${c}", vec![("c", "X")]), Ok("$X".to_string()));
}

#[test]
fn values_are_not_rendered_again() {
    assert_eq!(render("${a}", vec![("a", "${b}"), ("b", "X")]), Ok("${b}".to_string()));
}

#[test]
fn positions_count_characters() {
    assert_eq!(
        render("\u{e9}\u{1f600}${n}\u{fc}", vec![("n", "\u{4e16}")]),
        Ok("\u{e9}\u{1f600}\u{4e16}\u{fc}".to_string())
    );
    assert_eq!(render("${\u{e9}}", vec![("\u{e9}", "X")]), Ok("X".to_string()));
}

#[test]
fn names_are_told_apart_by_case() {
    assert_eq!(render("${URL}", vec![("url", "X")]), Err(Failure::TemplateRenderError));
}

#[test]
fn the_source_is_kept() {
    assert_eq!(Template::new("a ${b} c").source(), "a ${b} c");
}

#[test]
fn blanks_are_the_white_space_characters() {
    for c in ['\t', '\n', '\u{b}', '\u{c}', '\r', ' ', '\u{85}', '\u{a0}', '\u{1680}', '\u{2000}',
        '\u{2005}', '\u{200a}', '\u{2028}', '\u{2029}', '\u{202f}', '\u{205f}', '\u{3000}']
    {
        assert!(is_blank_char(c));
        assert!(c.is_whitespace());
    }
    for c in ['a', '}', '$', '\u{8}', '\u{e}', '\u{200b}', '\u{2060}', '\u{feff}', '\u{180e}'] {
        assert!(!is_blank_char(c));
        assert!(!c.is_whitespace());
    }
}

#[test]
fn a_mapping_keeps_the_last_value_of_a_name() {
    let mut map = Substitutions::new();
    assert!(!map.contains("a"));
    assert_eq!(map.get("a"), None);
    map.insert("a", "1".to_string());
    map.insert("a", "2".to_string());
    assert!(map.contains("a"));
    assert_eq!(map.get("a"), Some(&"2".to_string()));
    assert_eq!(map.get("A"), None);
}
