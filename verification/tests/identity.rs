use holons::identity::{frontmatter, FrontmatterError, HolonIdentity};

#[test]
fn test_parse_holon() {
    let text = "---\nuuid: \"abc-123\"\ngiven_name: \"test\"\nfamily_name: \"Test\"\n\
                motto: \"A test.\"\nclade: \"deterministic/pure\"\nlang: \"rust\"\n---\n# test\n";
    let fm = frontmatter(text).unwrap();
    let id: serde_yaml::Value = serde_yaml::from_str(fm).unwrap();
    assert_eq!(id["uuid"].as_str(), Some("abc-123"));
    assert_eq!(id["given_name"].as_str(), Some("test"));
    assert_eq!(id["lang"].as_str(), Some("rust"));
}

#[test]
fn test_parse_missing_frontmatter() {
    assert!(frontmatter("# No frontmatter\n").is_err());
}

#[test]
fn frontmatter_of_holon_file() {
    let text = "---\nuuid: \"abc-123\"\ngiven_name: \"test\"\nfamily_name: \"Test\"\n\
                motto: \"A test.\"\nclade: \"deterministic/pure\"\nlang: \"rust\"\n---\n# test\n";
    let fm = frontmatter(text).unwrap();
    assert_eq!(
        fm,
        "uuid: \"abc-123\"\ngiven_name: \"test\"\nfamily_name: \"Test\"\n\
         motto: \"A test.\"\nclade: \"deterministic/pure\"\nlang: \"rust\""
    );
}

#[test]
fn missing_frontmatter() {
    assert_eq!(frontmatter("# No frontmatter\n"), Err(FrontmatterError::Missing));
    assert_eq!(frontmatter(""), Err(FrontmatterError::Missing));
    assert_eq!(frontmatter(" ---\na: b\n---"), Err(FrontmatterError::Missing));
}

#[test]
fn unterminated_frontmatter() {
    assert_eq!(frontmatter("---\na: b\n"), Err(FrontmatterError::Unterminated));
    assert_eq!(frontmatter("---"), Err(FrontmatterError::Unterminated));
}

#[test]
fn frontmatter_edges() {
    assert_eq!(frontmatter("------"), Ok(""));
    assert_eq!(frontmatter("----\n---"), Ok("-"));
    assert_eq!(frontmatter("---  a: \u{e9}  ---rest---"), Ok("a: \u{e9}"));
}

#[test]
fn default_identity_is_empty() {
    let id = HolonIdentity::default();
    assert!(id.uuid.is_empty());
    assert!(id.lang.is_empty());
    assert!(id.parents.is_empty());
    assert!(id.aliases.is_empty());
}
