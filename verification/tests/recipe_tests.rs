use baker::recipe::{decrypt_secrets, encrypt_recipe_file, parse, ParseError};
use baker::secret::{Crypto, CryptoError};

#[test]
fn parse_splits_sections_and_variables() {
    let content = "[app:template]\ntemplate=tmpl\npath=out\n[app:variables]\nHOST=dev\n[app:secrets]\nPASS=val\n";
    let recipe = parse(content, false).unwrap();
    assert_eq!(recipe.instructions.len(), 1);
    let instr = &recipe.instructions[0];
    assert_eq!(instr.template.template.as_str(), "tmpl");
    assert_eq!(instr.variables.get("host").unwrap().as_str(), "dev");
    assert_eq!(instr.secrets.get("pass").unwrap().as_str(), "val");
}

#[test]
fn case_sensitive_mode_keeps_key_case() {
    let content = "[app:template]\ntemplate=tmpl\n[app:variables]\nHOST=dev\n";
    let recipe = parse(content, true).unwrap();
    let instr = &recipe.instructions[0];
    assert!(instr.variables.get("host").is_none());
    assert_eq!(instr.variables.get("HOST").unwrap().as_str(), "dev");
}

#[test]
fn sections_of_one_instruction_accumulate() {
    let content = "[a:template]\ntemplate=t1\n[b:template]\ntemplate=t2\n[a:variables]\nx=1\n";
    let recipe = parse(content, false).unwrap();
    assert_eq!(recipe.instructions.len(), 2);
    assert_eq!(recipe.instructions[0].name.as_str(), "a");
    assert_eq!(recipe.instructions[0].variables.get("x").unwrap().as_str(), "1");
    assert_eq!(recipe.instructions[1].name.as_str(), "b");
}

#[test]
fn comments_blanks_and_loose_lines_are_ignored() {
    let content = "# c\n; c2\n\nstray=1\n[a:template]\ntemplate=t\nnot an assignment\n";
    let recipe = parse(content, false).unwrap();
    assert_eq!(recipe.instructions.len(), 1);
    assert_eq!(recipe.raw_lines.len(), 7);
}

#[test]
fn remote_template_requires_path() {
    let content = "[app:template]\ntemplate=https://example.com/a.cfg\n";
    let err = parse(content, false).unwrap_err();
    match &err {
        ParseError::RemoteWithoutPath(name) => assert_eq!(name.as_str(), "app"),
        _ => panic!("expected the remote-without-path error"),
    }
    assert_eq!(
        err.message().as_str(),
        "Remote template must have attribute 'path' for [app]"
    );
}

#[test]
fn remote_template_with_path_is_remote() {
    let content = "[app:template]\ntemplate=https://example.com/a.cfg\npath=/tmp/a\n";
    let recipe = parse(content, false).unwrap();
    assert!(recipe.instructions[0].is_remote);
}

#[test]
fn missing_or_empty_template_fails() {
    let err = parse("[app:variables]\nx=1\n", false).unwrap_err();
    assert!(matches!(err, ParseError::MissingTemplate(_)));
    let err2 = parse("[app:template]\npath=p\n", false).unwrap_err();
    assert!(matches!(err2, ParseError::EmptyTemplate(_)));
}

#[test]
fn bad_headers_and_attributes_fail() {
    let err = parse("[nocolon]\n", false).unwrap_err();
    assert!(matches!(err, ParseError::MalformedSection(_)));
    let err2 = parse("[a:bogus]\nx=1\n", false).unwrap_err();
    assert!(matches!(err2, ParseError::UnknownPart(_)));
    let err3 = parse("[a:template]\ncolour=red\n", false).unwrap_err();
    match &err3 {
        ParseError::UnsupportedAttribute(a) => assert_eq!(a.as_str(), "colour"),
        _ => panic!("expected the unsupported-attribute error"),
    }
}

#[test]
fn template_attribute_names_are_case_insensitive() {
    let content = "[app:template]\nTEMPLATE=tmpl\nPath=out\nMODE=0644\n";
    let recipe = parse(content, false).unwrap();
    let t = &recipe.instructions[0].template;
    assert_eq!(t.template.as_str(), "tmpl");
    assert_eq!(t.path.as_ref().unwrap().as_str(), "out");
    assert_eq!(t.mode.as_ref().unwrap().as_str(), "0644");
}

#[test]
fn decrypt_secrets_fills_variables() {
    let crypto = Crypto::new(vec![7u8; 32]);
    let env = crypto.encrypt("s3cret").unwrap();
    let content = format!("[app:template]\ntemplate=t\n[app:secrets]\nPASS={}\n", env);
    let mut recipe = parse(&content, false).unwrap();
    decrypt_secrets(&mut recipe.instructions, &crypto, false).unwrap();
    assert_eq!(
        recipe.instructions[0].variables.get("pass").unwrap().as_str(),
        "s3cret"
    );
    // the stored secret itself stays encrypted
    assert_eq!(recipe.instructions[0].secrets.get("pass").unwrap().as_str(), env.as_str());
}

#[test]
fn rewrite_errors_carry_their_messages() {
    let bad_key = Crypto::new(vec![1u8; 16]);
    let err = encrypt_recipe_file("[a:template]\ntemplate=t\n[a:secrets]\nK=v\n", &bad_key)
        .unwrap_err();
    assert_eq!(err.message().as_str(), "cipher init error");
    let good = Crypto::new(vec![1u8; 32]);
    let err2 = encrypt_recipe_file("[nocolon]\n", &good).unwrap_err();
    assert_eq!(err2.message().as_str(), "Malformed section '[nocolon]'");
}

#[test]
fn decrypt_secrets_reports_the_first_failure() {
    let crypto = Crypto::new(vec![7u8; 32]);
    let good = crypto.encrypt("fine").unwrap();
    let content = format!(
        "[app:template]\ntemplate=t\n[app:secrets]\nA={}\nB=bad\\aa\\bb\nC=alsobad\n",
        good
    );
    let mut recipe = parse(&content, false).unwrap();
    let err = decrypt_secrets(&mut recipe.instructions, &crypto, false).unwrap_err();
    // the first failing entry is B, whose envelope has bad hex: a structural error
    assert!(matches!(err, CryptoError::Corrupted));
    // the entry before the failure was already injected; the secrets stayed intact
    assert_eq!(recipe.instructions[0].variables.get("a").unwrap().as_str(), "fine");
    assert_eq!(recipe.instructions[0].secrets.get("c").unwrap().as_str(), "alsobad");
}

#[test]
fn decrypt_secrets_fails_on_tampered_secret() {
    let crypto = Crypto::new(vec![7u8; 32]);
    let content = "[app:template]\ntemplate=t\n[app:secrets]\nPASS=garbage\n";
    let mut recipe = parse(content, false).unwrap();
    assert!(decrypt_secrets(&mut recipe.instructions, &crypto, false).is_err());
}

#[test]
fn encrypt_recipe_file_rewrites_only_secret_values() {
    let crypto = Crypto::new(vec![9u8; 32]);
    let content = "# top\n[app:template]\ntemplate=t\n[app:variables]\nHOST=dev\n[app:secrets]\nPASS = topsecret\n";
    let out = encrypt_recipe_file(content, &crypto).unwrap();
    let lines: Vec<&str> = out.lines().collect();
    assert_eq!(lines[0], "# top");
    assert_eq!(lines[1], "[app:template]");
    assert_eq!(lines[2], "template=t");
    assert_eq!(lines[3], "[app:variables]");
    assert_eq!(lines[4], "HOST=dev");
    assert_eq!(lines[5], "[app:secrets]");
    let rewritten = lines[6];
    assert!(rewritten.starts_with("PASS = "));
    let cipher = &rewritten["PASS = ".len()..];
    assert_ne!(cipher, "topsecret");
    assert_eq!(crypto.decrypt(cipher).unwrap(), "topsecret");
}
