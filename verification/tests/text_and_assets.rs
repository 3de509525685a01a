use fastn::history::FileOperation;
use fastn::logtext::{log_to_text, text_to_log};
use fastn::protocol::SyncStatus;

#[test]
fn ledger_round_trips() {
    let mut state = fastn::reconcile::SyncState::new();
    fastn::reconcile::do_sync(
        &mut state,
        &vec![
            fastn::protocol::SyncRequestFile::Add {
                path: "a.ftd".to_string(),
                content: b"one".to_vec(),
                src_cr: Some(7),
            },
            fastn::protocol::SyncRequestFile::Add {
                path: "b.ftd".to_string(),
                content: b"two".to_vec(),
                src_cr: None,
            },
        ],
    )
    .unwrap();
    let text = log_to_text(&state.log);
    let parsed = text_to_log(&text).expect("the ledger parses back");
    assert_eq!(log_to_text(&parsed), text);
    assert_eq!(parsed.len(), 2);
    let manifest = fastn::history::derive_manifest(&parsed, true);
    let edit = manifest.get(&"a.ftd".to_string()).unwrap();
    assert_eq!(edit.version, 1);
    assert_eq!(edit.operation, FileOperation::Added);
    assert_eq!(edit.src_cr, Some(7));
}

#[test]
fn ledger_text_shape() {
    let mut state = fastn::reconcile::SyncState::new();
    fastn::reconcile::do_sync(
        &mut state,
        &vec![fastn::protocol::SyncRequestFile::Add {
            path: "x".to_string(),
            content: b"c".to_vec(),
            src_cr: None,
        }],
    )
    .unwrap();
    let text = log_to_text(&state.log);
    assert_eq!(
        text,
        "file: x\nversion: 1\noperation: added\nauthor: none\nmessage: none\nsrc-cr: none\n"
    );
}

#[test]
fn malformed_ledger_is_refused() {
    assert!(text_to_log(&"not a ledger".to_string()).is_none());
    assert!(text_to_log(&"file: x\nversion: 0\n".to_string()).is_none());
    // versions must move strictly forward per path
    let twice = "file: x\nversion: 1\noperation: added\nauthor: none\nmessage: none\nsrc-cr: none\n\
                 file: x\nversion: 1\noperation: updated\nauthor: none\nmessage: none\nsrc-cr: none\n";
    assert!(text_to_log(&twice.to_string()).is_none());
}

#[test]
fn snapshot_names_insert_the_version_token() {
    assert_eq!(fastn::textutil::snapshot_id(&"a.ftd".to_string(), 5), "a.5.ftd");
    assert_eq!(fastn::textutil::snapshot_id(&"readme".to_string(), 2), "readme.2");
    assert_eq!(fastn::textutil::snapshot_id(&"a.b.c".to_string(), 12), "a.b.12.c");
}

#[test]
fn escaping_and_cache_keys() {
    assert_eq!(fastn::utils::escape_string("a\"b\\c\n"), "a\\\"b\\\\c\\n");
    assert_eq!(fastn::utils::escape_string("plain"), "plain");
    assert_eq!(fastn::utils::id_to_cache_key("x/y\\z"), "x_y_z");
}

#[test]
fn asset_names_hash_the_content() {
    // SHA-256 of the empty input, in uppercase hex
    let empty = "E3B0C44298FC1C149AFBF4C8996FB92427AE41E4649B934CA495991B7852B855";
    assert_eq!(fastn::utils::generate_hash(&Vec::new()), empty);
    assert_eq!(
        fastn::utils::hashed_default_css_name(""),
        format!("default-{}.css", empty)
    );
    assert_eq!(
        fastn::utils::hashed_prism_js(""),
        format!("prism-{}.js", empty)
    );
}

#[test]
fn external_asset_tags() {
    assert_eq!(
        fastn::utils::get_external_js_html(&vec!["a.js".to_string(), "b.js".to_string()]),
        "<script src=\"a.js\"></script><script src=\"b.js\"></script>"
    );
    assert_eq!(
        fastn::utils::get_external_css_html(&vec!["theme".to_string()]),
        "<link rel=\"stylesheet\" href=\"theme.css\">"
    );
    let headers = fastn::utils::ignore_headers();
    assert_eq!(headers, vec!["host".to_string(), "x-forwarded-ssl".to_string()]);
}

#[test]
fn tracking_document_text() {
    let infos = vec![
        fastn::track::TrackingInfo::new("doc.ftd", 3, None),
        fastn::track::TrackingInfo::new("other.ftd", 1, Some(2)),
    ];
    assert_eq!(
        fastn::track::generate_tracking_info_content(&infos),
        "-- import: fastn\n\n-- fastn.tracks: doc.ftd\nversion: 3\n\n-- fastn.tracks: other.ftd\nversion: 1\nself-version: 2\n"
    );
}

#[test]
fn status_classification() {
    assert!(SyncStatus::CloneAddedRemoteAdded.add_add_conflict());
    assert!(SyncStatus::CloneEditedRemoteDeleted.delete_edit_conflict());
    assert!(SyncStatus::CloneDeletedRemoteEdited.edit_delete_conflict());
    assert!(SyncStatus::RegularConflict.edit_edit_conflict());
    assert!(!SyncStatus::NoConflict.edit_edit_conflict());
}

#[test]
fn value_comment_prefixes() {
    let mut v = Some("/hidden".to_string());
    fastn::p1::remove_value_comment(&mut v);
    assert_eq!(v, None);
    let mut v = Some("\\/kept".to_string());
    fastn::p1::remove_value_comment(&mut v);
    assert_eq!(v, Some("/kept".to_string()));
    let mut v = Some("plain".to_string());
    fastn::p1::remove_value_comment(&mut v);
    assert_eq!(v, Some("plain".to_string()));
}

#[test]
fn or_type_sections() {
    let section = fastn::ast::Section {
        name: "color".to_string(),
        kind: Some("or-type".to_string()),
        caption: None,
        body: None,
        sub_sections: vec![fastn::ast::Section {
            name: "red".to_string(),
            kind: Some("string".to_string()),
            caption: Some("r".to_string()),
            body: None,
            sub_sections: vec![],
            line_number: 2,
        }],
        line_number: 1,
    };
    let or_type = fastn::ast::OrType::from_p1(&section, "doc").unwrap();
    assert_eq!(or_type.name, "color");
    assert_eq!(or_type.line_number(), 1);
    assert_eq!(or_type.variants.len(), 1);
    let mut variant = or_type.variants[0].clone();
    assert_eq!(variant.name(), "red");
    variant.set_name("crimson");
    assert_eq!(variant.name(), "crimson");
}

#[test]
fn property_sources_compare_by_slot() {
    assert!(fastn::ast::PropertySource::Caption.is_equal(&fastn::ast::PropertySource::Caption));
    assert!(!fastn::ast::PropertySource::Caption.is_equal(&fastn::ast::PropertySource::Body));
    let a = fastn::ast::PropertySource::Header { name: "width".to_string(), mutable: false };
    let b = fastn::ast::PropertySource::Header { name: "width".to_string(), mutable: true };
    let c = fastn::ast::PropertySource::Header { name: "height".to_string(), mutable: false };
    assert!(a.is_equal(&b));
    assert!(!a.is_equal(&c));
}

#[test]
fn mutable_variable_statements() {
    let stmt = fastn::js::mutable_integer("count", 42);
    match stmt {
        fastn::js::ComponentStatement::MutableVariable(v) => {
            assert_eq!(v.name, "count");
            match v.value {
                fastn::js::SetPropertyValue::Value(fastn::js::Value::Integer(n)) => {
                    assert_eq!(n, 42)
                }
                _ => panic!("expected an integer value"),
            }
        }
        _ => panic!("expected a mutable variable"),
    }
    let stmt = fastn::js::mutable_string("title", "hello");
    match stmt {
        fastn::js::ComponentStatement::MutableVariable(v) => {
            assert_eq!(v.name, "title");
            match v.value {
                fastn::js::SetPropertyValue::Value(fastn::js::Value::Text(s)) => {
                    assert_eq!(s, "hello")
                }
                _ => panic!("expected a text value"),
            }
        }
        _ => panic!("expected a mutable variable"),
    }
}
