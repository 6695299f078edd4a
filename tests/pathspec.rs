use odb_index::pathspec::{
    parse_attributes, parse_short_keywords, split_on_non_escaped_char, Error, MagicSignature, Pattern,
    SearchMode,
};

fn parse(s: &str) -> Result<Pattern, Error> {
    Pattern::from_bytes(s.as_bytes())
}

fn sig(top: bool, icase: bool, exclude: bool) -> MagicSignature {
    MagicSignature { top, icase, exclude }
}

#[test]
fn empty_pathspec_is_refused() {
    assert!(matches!(parse(""), Err(Error::EmptyString)));
}

#[test]
fn plain_path_has_no_magic() {
    let p = parse("a/b").unwrap();
    assert_eq!(p.path, b"a/b".to_vec());
    assert_eq!(p.signature, MagicSignature::empty());
    assert_eq!(p.search_mode, SearchMode::ShellGlob);
    assert!(p.attributes.is_empty());
}

#[test]
fn short_magic() {
    let p = parse(":/!a").unwrap();
    assert_eq!(p.signature, sig(true, false, true));
    assert_eq!(p.path, b"a".to_vec());
    let p = parse(":^:b").unwrap();
    assert_eq!(p.signature, sig(false, false, true));
    assert_eq!(p.path, b"b".to_vec());
    let p = parse(":").unwrap();
    assert_eq!(p.signature, MagicSignature::empty());
    assert!(p.path.is_empty());
}

#[test]
fn unimplemented_short_magic_is_refused() {
    assert!(matches!(parse(":#a"), Err(Error::Unimplemented { found_short_keyword: '#' })));
    assert!(matches!(parse(":/~a"), Err(Error::Unimplemented { found_short_keyword: '~' })));
}

#[test]
fn long_magic() {
    let p = parse(":(top,icase,exclude)x").unwrap();
    assert_eq!(p.signature, sig(true, true, true));
    assert_eq!(p.path, b"x".to_vec());
    let p = parse(":(literal)x").unwrap();
    assert_eq!(p.search_mode, SearchMode::Literal);
    let p = parse(":(glob,attr,prefix:3)x").unwrap();
    assert_eq!(p.search_mode, SearchMode::PathAwareGlob);
    let p = parse(":/()y").unwrap();
    assert_eq!(p.signature, sig(true, false, false));
    assert_eq!(p.path, b"y".to_vec());
}

#[test]
fn long_magic_errors() {
    assert!(matches!(parse(":(literal,glob)x"), Err(Error::IncompatibleSearchModes)));
    assert!(matches!(parse(":(glob,literal)x"), Err(Error::IncompatibleSearchModes)));
    match parse(":(top,foo)x") {
        Err(Error::InvalidKeyword { found_keyword }) => assert_eq!(found_keyword, b"foo".to_vec()),
        _ => panic!("expected an invalid keyword"),
    }
    match parse(":(top") {
        Err(Error::MissingClosingParenthesis { pathspec }) => assert_eq!(pathspec, b":(top".to_vec()),
        _ => panic!("expected a missing parenthesis"),
    }
    assert!(matches!(parse(":(attr:)x"), Err(Error::EmptyAttribute)));
    assert!(matches!(parse(":(attr:a,attr:b)x"), Err(Error::MultipleAttributeSpecifications)));
}

#[test]
fn attribute_specification_is_unescaped() {
    let p = parse(r":(attr:a=1\,2 b)x").unwrap();
    assert_eq!(p.attributes, b"a=1,2 b".to_vec());
    assert_eq!(parse_attributes(br"x\,y\,").unwrap(), b"x,y,".to_vec());
    assert!(matches!(parse_attributes(b""), Err(Error::EmptyAttribute)));
}

#[test]
fn split_on_unescaped_separators() {
    let v = |s: &[u8]| split_on_non_escaped_char(s, b',');
    assert_eq!(v(b"a,b"), vec![b"a".to_vec(), b"b".to_vec()]);
    assert_eq!(v(br"a\,b,c"), vec![br"a\,b".to_vec(), b"c".to_vec()]);
    assert_eq!(v(b""), vec![b"".to_vec()]);
    assert_eq!(v(b",a"), vec![b",a".to_vec()]);
    assert_eq!(v(b"a,,b"), vec![b"a".to_vec(), b",b".to_vec()]);
    assert_eq!(v(b"a,"), vec![b"a".to_vec(), b"".to_vec()]);
}

#[test]
fn short_keywords_move_the_cursor() {
    let mut p = Pattern::from_bytes(b"x").unwrap();
    let mut cursor = 1;
    parse_short_keywords(b":/^(top)", &mut p, &mut cursor).unwrap();
    assert_eq!(cursor, 3);
    assert_eq!(p.signature, sig(true, false, true));
    let mut cursor = 1;
    parse_short_keywords(b"://:x", &mut p, &mut cursor).unwrap();
    assert_eq!(cursor, 4);
    let mut cursor = 9;
    parse_short_keywords(b":/", &mut p, &mut cursor).unwrap();
    assert_eq!(cursor, 9);
}
