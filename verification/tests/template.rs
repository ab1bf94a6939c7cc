use ycmark::{
    apply_template, fill_template, parse_template, parse_template_with, Metadata, TemplateNode,
};

fn metadata(pairs: &[(&str, &str)]) -> Metadata {
    let mut m = Metadata::new();
    for (key, value) in pairs {
        m.insert(key.to_string(), value.to_string());
    }
    m
}

#[test]
fn variable_is_replaced_by_its_value() {
    let m = metadata(&[("name", "World")]);
    assert_eq!(apply_template("Hello $name$!".to_string(), m), "Hello World!");
}

#[test]
fn doubled_sigil_is_one_sigil() {
    assert_eq!(apply_template("Price: $$5".to_string(), Metadata::new()), "Price: $5");
}

#[test]
fn unknown_variable_becomes_its_bare_name() {
    let m = metadata(&[("other", "x")]);
    assert_eq!(apply_template("$missing$".to_string(), m), "missing");
}

#[test]
fn template_without_sigil_is_unchanged() {
    let text = "plain text\nwith two lines, a name and body";
    assert_eq!(apply_template(text.to_string(), metadata(&[("name", "n"), ("body", "b")])), text);
    assert_eq!(apply_template(text.to_string(), Metadata::new()), text);
    assert_eq!(apply_template(String::new(), metadata(&[("", "x")])), "");
}

#[test]
fn malformed_template_is_unchanged() {
    let m = metadata(&[("name", "World"), ("5", "five")]);
    assert_eq!(apply_template("cost $5 for $name$".to_string(), m), "cost $5 for $name$");
    let m = metadata(&[("name", "World")]);
    assert_eq!(apply_template("$name".to_string(), m), "$name");
    let m = metadata(&[("a b", "x")]);
    assert_eq!(apply_template("$a b$".to_string(), m), "$a b$");
    assert_eq!(apply_template("$".to_string(), Metadata::new()), "$");
    assert_eq!(apply_template("$$$".to_string(), Metadata::new()), "$$$");
}

#[test]
fn names_hold_dots_dashes_and_underscores() {
    let m = metadata(&[("list.0", "a"), ("map.key", "v"), ("a-b_c", "w")]);
    assert_eq!(
        apply_template("$list.0$/$map.key$/$a-b_c$".to_string(), m),
        "a/v/w"
    );
}

#[test]
fn names_are_looked_up_as_written() {
    let m = metadata(&[("name", "lower")]);
    assert_eq!(apply_template("$Name$ $name$".to_string(), m), "Name lower");
}

#[test]
fn names_may_hold_letters_outside_ascii() {
    let m = metadata(&[("été", "summer"), ("数", "number")]);
    assert_eq!(apply_template("«$été$» $数$ $ß$".to_string(), m), "«summer» number ß");
}

#[test]
fn punctuation_is_no_name_character() {
    assert_eq!(parse_template("$a!$").is_none(), true);
    assert_eq!(parse_template("$a$b$").is_none(), true);
}

#[test]
fn adjacent_tokens_are_told_apart() {
    let m = metadata(&[("a", "1"), ("b", "2")]);
    assert_eq!(apply_template("$a$$b$$$$$x".to_string(), m), "12$$x");
}

#[test]
fn values_are_not_filled_in_again() {
    let m = metadata(&[("a", "$b$"), ("b", "no")]);
    assert_eq!(apply_template("$a$".to_string(), m), "$b$");
}

#[test]
fn template_is_cut_into_literals_and_variables() {
    let nodes = parse_template("Hello $name$!$$").unwrap();
    assert_eq!(nodes.len(), 4);
    assert!(matches!(nodes[0], TemplateNode::Literal("Hello ")));
    assert!(matches!(nodes[1], TemplateNode::Variable("name")));
    assert!(matches!(nodes[2], TemplateNode::Literal("!")));
    assert!(matches!(nodes[3], TemplateNode::Variable("")));
    assert_eq!(parse_template("").unwrap().len(), 0);
}

#[test]
fn letters_may_be_given_with_the_template() {
    let letters = vec![false, true, true, false, false, false, true, false];
    let nodes = parse_template_with("$ab$-$c$", &letters).unwrap();
    assert_eq!(nodes.len(), 3);
    assert!(matches!(nodes[0], TemplateNode::Variable("ab")));
    assert!(matches!(nodes[1], TemplateNode::Literal("-")));
    assert!(matches!(nodes[2], TemplateNode::Variable("c")));

    let none = vec![false; 8];
    assert!(parse_template_with("$ab$-$c$", &none).is_none());
    let nodes = parse_template_with("$_.-$ab$$", &none).unwrap();
    assert_eq!(nodes.len(), 3);
    assert!(matches!(nodes[0], TemplateNode::Variable("_.-")));
    assert!(matches!(nodes[1], TemplateNode::Literal("ab")));
    assert!(matches!(nodes[2], TemplateNode::Variable("")));
}

#[test]
fn missing_letters_count_as_none() {
    assert!(parse_template_with("$ab$", &vec![false, true]).is_none());
    assert!(parse_template_with("$ab$", &vec![]).is_none());
    let nodes = parse_template_with("$ab$", &vec![false, true, true]).unwrap();
    assert!(matches!(nodes[0], TemplateNode::Variable("ab")));
    let nodes = parse_template_with("$ab$", &vec![true; 9]).unwrap();
    assert_eq!(nodes.len(), 1);
    assert!(matches!(nodes[0], TemplateNode::Variable("ab")));
}

#[test]
fn sigil_is_never_a_name_character() {
    let all = vec![true; 6];
    let nodes = parse_template_with("$a$$b$", &all).unwrap();
    assert_eq!(nodes.len(), 2);
    assert!(matches!(nodes[0], TemplateNode::Variable("a")));
    assert!(matches!(nodes[1], TemplateNode::Variable("b")));
}

#[test]
fn tokens_are_put_together_with_values() {
    let nodes = vec![
        TemplateNode::Literal("<"),
        TemplateNode::Variable("known"),
        TemplateNode::Variable(""),
        TemplateNode::Variable("unknown"),
        TemplateNode::Literal(">"),
    ];
    let m = metadata(&[("known", "value"), ("", "never")]);
    assert_eq!(fill_template(&nodes, &m), "<value$unknown>");
    assert_eq!(fill_template(&vec![], &m), "");
}

#[test]
fn long_template_is_cut_in_one_pass() {
    let mut template = String::new();
    let mut expected = String::new();
    for i in 0..20000 {
        template.push_str("text é ");
        template.push_str("$key$");
        template.push_str("$$");
        expected.push_str("text é ");
        expected.push_str("value");
        expected.push('$');
        if i % 1000 == 0 {
            template.push_str("$other.name$");
            expected.push_str("other.name");
        }
    }
    assert_eq!(apply_template(template, metadata(&[("key", "value")])), expected);
}
