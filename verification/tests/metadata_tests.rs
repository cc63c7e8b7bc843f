use venv_rs::codec::{decode_metadata, encode_metadata};
use venv_rs::metadata::{Metadata, MetadataBuilder, MetadataTokens};

#[test]
fn test_split_at_separator() {
    assert_eq!(
        Metadata::split_at_separator("requests>=2.25.1".to_string()),
        "requests"
    );
    assert_eq!(
        Metadata::split_at_separator("opencv-python (>=4.5.5)".to_string()),
        "opencv-python"
    );
    assert_eq!(
        Metadata::split_at_separator("numpy==1.21.4".to_string()),
        "numpy"
    );
    assert_eq!(
        Metadata::split_at_separator("pandas < 2.0".to_string()),
        "pandas"
    );
    assert_eq!(
        Metadata::split_at_separator("scipy!=1.7.0".to_string()),
        "scipy"
    );
    assert_eq!(
        Metadata::split_at_separator("pytest ; extra == \"test\"".to_string()),
        "pytest"
    );
    assert_eq!(
        Metadata::split_at_separator("simplejson==3.* ; extra == \"test\"".to_string()),
        "simplejson"
    );
    assert_eq!(
        Metadata::split_at_separator("pycparser".to_string()),
        "pycparser"
    );
}

#[test]
fn test_parse_dependency() {
    assert_eq!(
        Metadata::parse_dependency("requests>=2.25.1".to_string()),
        "requests"
    );
    assert_eq!(Metadata::parse_dependency("numpy".to_string()), "numpy");
}

#[test]
fn test_parse_tokens() {
    let tokens = vec![
        MetadataTokens::Name("my-package".to_string()),
        MetadataTokens::Version("1.2.3".to_string()),
        MetadataTokens::Summary("This is a test.".to_string()),
        MetadataTokens::Dependency("requests>=2.0".to_string()),
        MetadataTokens::Dependency("click".to_string()),
    ];

    let metadata = Metadata::parse_tokens(tokens).unwrap();

    assert_eq!(metadata.name, "my-package");
    assert_eq!(metadata.version, "1.2.3");
    assert_eq!(metadata.summary, "This is a test.");

    let deps = metadata.dependencies.expect("dependencies should be present");
    assert_eq!(deps.len(), 2);
    assert!(deps.contains(&"requests".to_string()));
    assert!(deps.contains(&"click".to_string()));
}

#[test]
fn test_parse_tokens_no_deps() {
    let tokens = vec![
        MetadataTokens::Name("simple-package".to_string()),
        MetadataTokens::Version("0.1.0".to_string()),
        MetadataTokens::Summary("A simple package.".to_string()),
    ];

    let metadata = Metadata::parse_tokens(tokens).unwrap();

    assert_eq!(metadata.name, "simple-package");
    assert_eq!(metadata.version, "0.1.0");
    assert_eq!(metadata.summary, "A simple package.");
    assert!(metadata.dependencies.is_none());
}

#[test]
fn test_parse_tokens_collapses_duplicates() {
    let tokens = vec![
        MetadataTokens::Dependency("requests>=2.0".to_string()),
        MetadataTokens::Dependency("requests (>=2.25)".to_string()),
        MetadataTokens::Dependency("numpy".to_string()),
    ];
    let metadata = Metadata::parse_tokens(tokens).unwrap();
    let deps = metadata.dependencies.unwrap();
    assert_eq!(deps.len(), 2);
    assert!(deps.contains(&"requests".to_string()));
    assert!(deps.contains(&"numpy".to_string()));
}

#[test]
fn test_metadata_builder_build() {
    let mut deps = Vec::new();
    deps.push("numpy".to_string());
    deps.push("pillow".to_string());
    deps.push("opencv-python".to_string());

    let metadata = MetadataBuilder::new()
        .name("fimage".to_string())
        .version("0.2.1".to_string())
        .summary("A Python module to create and apply filters to images.".to_string())
        .add_dependencies(deps.clone())
        .build();

    assert_eq!(metadata.name, "fimage");
    assert_eq!(metadata.version, "0.2.1");
    assert_eq!(
        metadata.summary,
        "A Python module to create and apply filters to images."
    );
    assert_eq!(metadata.dependencies, Some(deps));
}

#[test]
fn test_metadata_builder_build_default() {
    let builder = MetadataBuilder::default();
    let metadata = builder.build();
    assert_eq!(metadata.name, "");
    assert_eq!(metadata.version, "");
    assert_eq!(metadata.summary, "");
    assert!(metadata.dependencies.is_none());
}

#[test]
fn test_parse_metadata_text_header_block() {
    let text = "Name: demo\nVersion: 1.0\nSummary: A demo.\nRequires-Dist: requests>=2.0\nUnknown: dropped\n\nName: ignored-after-blank\n";
    let md = Metadata::parse_metadata_text(text);
    assert_eq!(md.name, "demo");
    assert_eq!(md.version, "1.0");
    assert_eq!(md.summary, "A demo.");
    assert_eq!(md.dependencies, Some(vec!["requests".to_string()]));
}

#[test]
fn metadata_round_trip() {
    let metadata = MetadataBuilder::new()
        .name("fimage".to_string())
        .version("0.2.1".to_string())
        .summary("Filters for images.".to_string())
        .add_dependencies(vec!["numpy".to_string(), "pillow".to_string()])
        .build();
    let bytes = encode_metadata(&metadata);
    let (decoded, used) = decode_metadata(&bytes).expect("decoding an encoding must succeed");
    assert_eq!(used, bytes.len());
    assert_eq!(decoded, metadata);
}

#[test]
fn metadata_round_trip_keeps_absent_dependencies() {
    let metadata = MetadataBuilder::new().name("bare".to_string()).build();
    let bytes = encode_metadata(&metadata);
    let (decoded, _) = decode_metadata(&bytes).unwrap();
    assert!(decoded.dependencies.is_none());
    assert_eq!(decoded, metadata);
}
