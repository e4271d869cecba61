use aide::{
    build_sul_entry, parse_fiid_uri, resolve_overlays, AideError, CryptoHeader, DimOverlay,
    FiidProtocol, QidRequest,
};

#[test]
fn parse_qid_uri_extracts_alias_and_payload() {
    let uri = "qid://qca-rb/0xDA12/1.AF01.1700000000.abcd.deadbeef.sigxyz";
    let proto = parse_fiid_uri(uri).expect("parse failed");
    match proto {
        FiidProtocol::Qid(q) => {
            assert_eq!(q.srid_alias, "0xDA12");
            assert!(q.payload.starts_with("1.AF01."));
        }
        _ => panic!("expected qid protocol"),
    }
}

#[test]
fn build_sul_entry_combines_header_and_dim() {
    let uri = "qid://qca-rb/0xDA12/1.AF01.1700000000.abcd.deadbeef.sigxyz";
    let header = CryptoHeader {
        version: 1,
        hook_alg: 1,
        payload_alg: 1,
        ze_type: 1,
        ze_version: 1,
        flags: 0,
    };
    let header_bytes = header.encode();
    let overlays = vec![
        DimOverlay {
            id: "p1".to_string(),
            priority: 5,
            policy: Some("allow".to_string()),
            time_slot: None,
            location: Some("HCM".to_string()),
            expires_at: None,
        },
        DimOverlay {
            id: "p2".to_string(),
            priority: 10,
            policy: Some("deny".to_string()),
            time_slot: Some(2),
            location: None,
            expires_at: None,
        },
    ];
    let entry = build_sul_entry(uri, &header_bytes, overlays, 0).expect("build failed");
    assert_eq!(entry.srid_alias, "0xDA12");
    assert_eq!(entry.crypto_header, header);
    assert_eq!(entry.dim.policy.as_deref(), Some("deny"));
    assert_eq!(entry.dim.time_slot, Some(2));
    assert_eq!(entry.dim.location.as_deref(), Some("HCM"));
}

fn qid(alias: &str, payload: &str) -> FiidProtocol {
    FiidProtocol::Qid(QidRequest {
        srid_alias: alias.to_string(),
        payload: payload.to_string(),
    })
}

#[test]
fn uri_classification_examples() {
    assert_eq!(
        parse_fiid_uri("qid://qca-rb/0xDA12/1.AF01.xyz"),
        Ok(qid("0xDA12", "1.AF01.xyz"))
    );
    assert_eq!(parse_fiid_uri("qia://foo"), Ok(FiidProtocol::Qia("foo".to_string())));
    assert_eq!(parse_fiid_uri("qed://bar"), Ok(FiidProtocol::Qed("bar".to_string())));
    assert_eq!(parse_fiid_uri("http://x"), Err(AideError::InvalidUri));
}

#[test]
fn qid_splits_on_first_slash_only() {
    assert_eq!(parse_fiid_uri("qid://qca-rb/a/b/c"), Ok(qid("a", "b/c")));
    assert_eq!(parse_fiid_uri("qid://qca-rb/alias"), Ok(qid("alias", "")));
    assert_eq!(parse_fiid_uri("qid://qca-rb/alias/"), Ok(qid("alias", "")));
    assert_eq!(parse_fiid_uri("qid://qca-rb//p"), Ok(qid("", "p")));
    assert_eq!(parse_fiid_uri("qid://qca-rb/ñá/ü"), Ok(qid("ñá", "ü")));
}

#[test]
fn qid_with_nothing_after_prefix_has_no_alias() {
    assert_eq!(parse_fiid_uri("qid://qca-rb/"), Err(AideError::MissingAlias));
}

#[test]
fn prefixes_are_exact_and_case_sensitive() {
    assert_eq!(parse_fiid_uri("QIA://foo"), Err(AideError::InvalidUri));
    assert_eq!(parse_fiid_uri(" qia://foo"), Err(AideError::InvalidUri));
    assert_eq!(parse_fiid_uri("qid://other/x"), Err(AideError::InvalidUri));
    assert_eq!(parse_fiid_uri(""), Err(AideError::InvalidUri));
    assert_eq!(parse_fiid_uri("qia://"), Ok(FiidProtocol::Qia(String::new())));
    assert_eq!(parse_fiid_uri("qed:// x/y"), Ok(FiidProtocol::Qed(" x/y".to_string())));
}

fn sample_overlays() -> Vec<DimOverlay> {
    vec![
        DimOverlay {
            id: "a".to_string(),
            priority: 4,
            policy: Some("allow".to_string()),
            time_slot: Some(9),
            location: None,
            expires_at: Some(10),
        },
        DimOverlay {
            id: "b".to_string(),
            priority: 2,
            policy: None,
            time_slot: Some(3),
            location: Some("SGN".to_string()),
            expires_at: None,
        },
    ]
}

#[test]
fn built_entry_agrees_with_its_parts() {
    let uri = "qid://qca-rb/0xBEEF/payload";
    let bytes = [3u8, 1, 4, 1, 5, 9];
    let entry = build_sul_entry(uri, &bytes, sample_overlays(), 7).expect("build");
    let parsed = parse_fiid_uri(uri).expect("parse");
    match parsed {
        FiidProtocol::Qid(q) => assert_eq!(entry.srid_alias, q.srid_alias),
        _ => panic!("expected qid"),
    }
    assert_eq!(entry.crypto_header, CryptoHeader::decode(&bytes).expect("decode"));
    assert_eq!(entry.dim, resolve_overlays(sample_overlays(), 7));
    assert_eq!(entry.dim.policy.as_deref(), Some("allow"));
    assert_eq!(entry.dim.time_slot, Some(9));
    assert_eq!(entry.dim.location.as_deref(), Some("SGN"));
}

#[test]
fn build_rejects_qia_and_qed_whatever_the_header() {
    let good = [1u8, 2, 3, 4, 5, 6];
    let bad = [1u8, 2];
    for uri in ["qia://foo", "qed://bar"] {
        assert_eq!(
            build_sul_entry(uri, &good, sample_overlays(), 0),
            Err(AideError::UnsupportedProtocol)
        );
        assert_eq!(
            build_sul_entry(uri, &bad, Vec::new(), 0),
            Err(AideError::UnsupportedProtocol)
        );
    }
}

#[test]
fn build_propagates_parse_and_header_failures() {
    let good = [1u8, 2, 3, 4, 5, 6];
    assert_eq!(
        build_sul_entry("ftp://x", &good, Vec::new(), 0),
        Err(AideError::InvalidUri)
    );
    assert_eq!(
        build_sul_entry("qid://qca-rb/", &good, Vec::new(), 0),
        Err(AideError::MissingAlias)
    );
    assert_eq!(
        build_sul_entry("qid://qca-rb/a/b", &[1, 2, 3, 4, 5], Vec::new(), 0),
        Err(AideError::InvalidHeaderLength)
    );
}
