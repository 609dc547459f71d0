use baker::recipe::parse;
use baker::strmap::StrMap;
use baker::template::{replace, BakerTemplate, TemplateError};

#[test]
fn replaces_case_insensitive_by_default() {
    let tpl = BakerTemplate::new("host: {{ HOST }}", false);
    let mut map = StrMap::new();
    map.insert("host", "dev");
    let out = tpl.replace(&map).unwrap();
    assert_eq!(out.as_str(), "host: dev");
}

#[test]
fn escapes_delimiter() {
    let tpl = BakerTemplate::new("{{\\ escape }} data", false);
    let map = StrMap::new();
    let out = tpl.replace(&map).unwrap();
    assert_eq!(out.as_str(), "{{ data");
}

#[test]
fn case_sensitive_lookup_uses_exact_key() {
    let tpl = BakerTemplate::new("{{ HOST }}", true);
    let mut map = StrMap::new();
    map.insert("HOST", "prod");
    assert_eq!(tpl.replace(&map).unwrap().as_str(), "prod");

    let tpl2 = BakerTemplate::new("{{ host }}", true);
    assert!(tpl2.replace(&map).is_err());
}

#[test]
fn missing_variable_error_names_the_token() {
    let tpl = BakerTemplate::new("x {{ MISSING }} y", false);
    let map = StrMap::new();
    let err = tpl.replace(&map).unwrap_err();
    match &err {
        TemplateError::MissingVariable(tok) => assert_eq!(tok.as_str(), "MISSING"),
        _ => panic!("expected a missing-variable error"),
    }
    assert_eq!(err.message().as_str(), "Missing variable MISSING");
}

#[test]
fn unterminated_placeholder_fails() {
    let tpl = BakerTemplate::new("before {{ open", false);
    let map = StrMap::new();
    let err = tpl.replace(&map).unwrap_err();
    assert!(matches!(err, TemplateError::Unclosed));
    assert_eq!(err.message().as_str(), "Unclosed template variable");
}

#[test]
fn literal_braces_pass_through() {
    let tpl = BakerTemplate::new("a { b } c }} d", false);
    let map = StrMap::new();
    assert_eq!(tpl.replace(&map).unwrap().as_str(), "a { b } c }} d");
}

#[test]
fn replace_strips_template_extension_from_target() {
    let recipe = parse("[app:template]\ntemplate=conf.tpl\n[app:variables]\nHOST=dev\n", false)
        .unwrap();
    let instr = &recipe.instructions[0];
    let ext = Some(String::from("tpl"));
    let (target, rendered) = replace(instr, "host={{host}}", &ext, false).unwrap();
    assert_eq!(target.as_str(), "conf");
    assert_eq!(rendered.as_str(), "host=dev");
}

#[test]
fn replace_prefers_path_as_target() {
    let recipe = parse("[app:template]\ntemplate=src.txt\npath=dest.txt\n", false).unwrap();
    let instr = &recipe.instructions[0];
    let (target, rendered) = replace(instr, "static", &None, false).unwrap();
    assert_eq!(target.as_str(), "dest.txt");
    assert_eq!(rendered.as_str(), "static");
}
