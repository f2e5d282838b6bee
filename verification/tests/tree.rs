use xades::xml::input::{parse, C14nMethod, C14N11_WITH_COMMENTS};

const XML: &str = "<?xml version=\"1.0\"?><!-- c --><r xmlns:a=\"urn:a\" xmlns=\"urn:d\">\
    <a:x Id=\"1\" a:k=\"v\">one<a:y>two</a:y><![CDATA[&]]><!-- no --></a:x>\
    <x>plain</x><a:x k=\"w\" k2=\"z\"><z><a:x/></z></a:x></r>";

#[test]
fn elements_are_found_by_name() {
    let doc = parse(XML).unwrap();
    let root = doc.descendants(0, "urn:d", "r");
    assert_eq!(root.len(), 1);
    let all = doc.descendants(0, "urn:a", "x");
    assert_eq!(all.len(), 3);
    let direct = doc.children(root[0], "urn:a", "x");
    assert_eq!(direct, vec![all[0], all[1]]);
    assert_eq!(doc.child(root[0], "urn:a", "x"), Some(all[0]));
    assert_eq!(doc.child(root[0], "urn:a", "y"), None);
    assert_eq!(doc.child(root[0], "urn:d", "x").map(|n| doc.text(n)), Some("plain".to_string()));
    assert_eq!(doc.child(0, "urn:d", "r"), Some(root[0]));
    assert_eq!(doc.child_of(None, "urn:d", "r"), None);
    assert_eq!(doc.descendants(9999, "urn:a", "x"), Vec::<usize>::new());
}

#[test]
fn text_is_collected_from_below() {
    let doc = parse(XML).unwrap();
    let x = doc.descendants(0, "urn:a", "x");
    assert_eq!(doc.text(x[0]), "onetwo&");
    assert_eq!(doc.text(x[1]), "");
    assert_eq!(doc.text(0), "onetwo&plain");
    assert_eq!(doc.text(9999), "");
}

#[test]
fn attributes_are_found_by_local_name() {
    let doc = parse(XML).unwrap();
    let x = doc.descendants(0, "urn:a", "x");
    assert_eq!(doc.attribute(x[0], "Id"), Some("1"));
    assert_eq!(doc.attribute(x[0], "k"), Some("v"));
    assert_eq!(doc.attribute(x[1], "k"), Some("w"));
    assert_eq!(doc.attribute(x[1], "K"), None);
    assert_eq!(doc.attribute(9999, "k"), None);
    assert_eq!(doc.attribute_or_empty(Some(x[2]), "k"), "");
    assert_eq!(doc.attribute_or_empty(None, "k"), "");
}

#[test]
fn nodes_lie_within_their_ancestors() {
    let doc = parse(XML).unwrap();
    let x = doc.descendants(0, "urn:a", "x");
    assert!(doc.is_within(x[1], x[2]));
    assert!(doc.is_within(x[1], x[1]));
    assert!(!doc.is_within(x[2], x[1]));
    assert!(!doc.is_within(x[0], x[2]));
    assert!(doc.is_within(0, x[0]));
}

#[test]
fn malformed_text_is_refused() {
    assert!(parse("<a><b></a>").is_err());
    assert!(parse("").is_err());
}

#[test]
fn canonical_forms_differ_by_method() {
    let doc = parse(XML).unwrap();
    let x = doc.descendants(0, "urn:a", "x");
    let inclusive = doc.canonicalize(x[2], C14nMethod::Inclusive).unwrap();
    assert_eq!(inclusive, b"<a:x xmlns=\"urn:d\" xmlns:a=\"urn:a\"></a:x>".to_vec());
    let exclusive = doc.canonicalize(x[2], C14nMethod::Exclusive).unwrap();
    assert_eq!(exclusive, b"<a:x xmlns:a=\"urn:a\"></a:x>".to_vec());
    assert_eq!(doc.canonicalize(x[2], C14nMethod::Inclusive11).unwrap(), inclusive);
    assert_eq!(doc.canonicalize(9999, C14nMethod::Inclusive), None);
}

#[test]
fn canonicalization_methods_are_known_by_uri() {
    assert!(matches!(
        C14nMethod::from_uri("http://www.w3.org/TR/2001/REC-xml-c14n-20010315"),
        Some(C14nMethod::Inclusive)
    ));
    assert!(matches!(
        C14nMethod::from_uri(C14N11_WITH_COMMENTS),
        Some(C14nMethod::Inclusive11WithComments)
    ));
    assert!(C14nMethod::from_uri("urn:other").is_none());
    for (mode, method) in [
        (bergshamra_c14n::C14nMode::Inclusive, "Inclusive"),
        (bergshamra_c14n::C14nMode::InclusiveWithComments, "InclusiveWithComments"),
        (bergshamra_c14n::C14nMode::Inclusive11, "Inclusive11"),
        (bergshamra_c14n::C14nMode::Inclusive11WithComments, "Inclusive11WithComments"),
        (bergshamra_c14n::C14nMode::Exclusive, "Exclusive"),
        (bergshamra_c14n::C14nMode::ExclusiveWithComments, "ExclusiveWithComments"),
    ] {
        let found = match C14nMethod::from_uri(mode.uri()).unwrap() {
            C14nMethod::Inclusive => "Inclusive",
            C14nMethod::InclusiveWithComments => "InclusiveWithComments",
            C14nMethod::Inclusive11 => "Inclusive11",
            C14nMethod::Inclusive11WithComments => "Inclusive11WithComments",
            C14nMethod::Exclusive => "Exclusive",
            C14nMethod::ExclusiveWithComments => "ExclusiveWithComments",
        };
        assert_eq!(found, method);
    }
}
