use friend_reader::document::{Document, DocumentMetadata};
use friend_reader::presence::{ConnectedUser, Position, PresenceStore};
use friend_reader::server::{
    apply_update, check_auth, content_type_for, hash_password, health, serve_document, serve_image,
    serve_positions, ApiError, AuthRequest, ImageStore, PositionUpdate,
};

fn user(name: &str, start: usize) -> ConnectedUser {
    ConnectedUser {
        name: name.to_string(),
        color: "#112233".to_string(),
        position: Position::whole_elements(start, start + 3),
    }
}

fn names(store: &PresenceStore) -> Vec<(String, usize)> {
    let mut v: Vec<(String, usize)> =
        store.snapshot().into_iter().map(|u| (u.name, u.position.start_element)).collect();
    v.sort();
    v
}

fn auth(h: Option<&str>) -> AuthRequest {
    AuthRequest { password_hash: h.map(|s| s.to_string()) }
}

#[test]
fn upsert_replaces_same_identity() {
    let mut store = PresenceStore::new();
    store.upsert(user("ann", 1), 1000);
    store.upsert(user("bob", 2), 1000);
    store.upsert(user("ann", 7), 2000);
    assert_eq!(store.len(), 2);
    assert_eq!(names(&store), vec![("ann".to_string(), 7), ("bob".to_string(), 2)]);
}

#[test]
fn sweep_removes_only_expired_records() {
    let mut store = PresenceStore::new();
    store.upsert(user("old", 0), 0);
    store.upsert(user("edge", 0), 5000);
    store.upsert(user("fresh", 0), 14000);
    store.sweep(15000);
    assert_eq!(names(&store), vec![("edge".to_string(), 0), ("fresh".to_string(), 0)]);
    store.sweep(15001);
    assert_eq!(names(&store), vec![("fresh".to_string(), 0)]);
}

#[test]
fn refreshed_record_survives_repeated_sweeps() {
    let mut store = PresenceStore::new();
    let mut now = 0;
    for _ in 0..10 {
        store.upsert(user("ann", 3), now);
        now += 5000;
        store.sweep(now);
        assert_eq!(names(&store), vec![("ann".to_string(), 3)]);
    }
    store.sweep(now + 10001);
    assert!(names(&store).is_empty());
}

#[test]
fn open_server_admits_everything() {
    assert!(check_auth(&None, &None));
    assert!(check_auth(&None, &Some("anything".to_string())));
    let doc = Document {
        metadata: DocumentMetadata { title: None, language: None, author: None },
        elements: vec![],
    };
    assert!(serve_document(&None, &doc, &auth(Some("x"))).is_ok());
    assert!(serve_document(&None, &doc, &auth(None)).is_ok());
}

#[test]
fn protected_server_requires_exact_digest() {
    let secret = Some(hash_password("pw"));
    let good = hash_password("pw");
    assert!(check_auth(&secret, &Some(good.clone())));
    assert!(!check_auth(&secret, &None));
    assert!(!check_auth(&secret, &Some(hash_password("other"))));
    assert!(!check_auth(&secret, &Some(good.to_uppercase())));
    let store = PresenceStore::new();
    assert_eq!(serve_positions(&secret, &store, &auth(None)).unwrap_err(), ApiError::Authorization);
    assert!(serve_positions(&secret, &store, &auth(Some(&good))).is_ok());
}

#[test]
fn password_digest_is_lowercase_sha256_hex() {
    assert_eq!(
        hash_password(""),
        "e3b0c44298fc1c149afbf4c8996fb92427ae41e4649b934ca495991b7852b855"
    );
    assert_eq!(
        hash_password("abc"),
        "ba7816bf8f01cfea414140de5dae2223b00361a396177a9cb410ff61f20015ad"
    );
}

#[test]
fn rejected_update_leaves_store_unchanged() {
    let secret = Some(hash_password("pw"));
    let mut store = PresenceStore::new();
    let update = PositionUpdate {
        name: "eve".to_string(),
        color: "#000000".to_string(),
        position: Position::whole_elements(1, 2),
        password_hash: Some("wrong".to_string()),
    };
    assert_eq!(apply_update(&secret, &mut store, update, 10), Err(ApiError::Authorization));
    assert_eq!(store.len(), 0);
    let update = PositionUpdate {
        name: "eve".to_string(),
        color: "#000000".to_string(),
        position: Position::whole_elements(1, 2),
        password_hash: Some(hash_password("pw")),
    };
    assert_eq!(apply_update(&secret, &mut store, update, 10), Ok(()));
    assert_eq!(names(&store), vec![("eve".to_string(), 1)]);
}

#[test]
fn health_reports_whether_a_password_is_needed() {
    let h = health(&None);
    assert_eq!(h.status, "ok");
    assert!(!h.requires_password);
    assert!(health(&Some("x".to_string())).requires_password);
}

#[test]
fn images_are_served_with_their_content_type() {
    let mut images = ImageStore::new();
    images.insert("cover.JPG".to_string(), vec![1]);
    images.insert("a.jpeg".to_string(), vec![2]);
    images.insert("b.webp".to_string(), vec![3, 4]);
    let (data, kind) = serve_image(&None, &images, "b.webp", &auth(None)).unwrap();
    assert_eq!(data, &vec![3, 4]);
    assert_eq!(kind, "image/webp");
    let (data, kind) = serve_image(&None, &images, "a.jpeg", &auth(None)).unwrap();
    assert_eq!(data, &vec![2]);
    assert_eq!(kind, "image/jpeg");
    let (_, kind) = serve_image(&None, &images, "cover.JPG", &auth(None)).unwrap();
    assert_eq!(kind, "application/octet-stream");
    assert_eq!(
        serve_image(&None, &images, "missing.png", &auth(None)).unwrap_err(),
        ApiError::NotFound
    );
    assert_eq!(
        serve_image(&Some("h".to_string()), &images, "b.webp", &auth(None)).unwrap_err(),
        ApiError::Authorization
    );
}

#[test]
fn content_types_by_extension() {
    assert_eq!(content_type_for("x.jpg"), "image/jpeg");
    assert_eq!(content_type_for("x.jpeg"), "image/jpeg");
    assert_eq!(content_type_for("x.png"), "image/png");
    assert_eq!(content_type_for("x.gif"), "image/gif");
    assert_eq!(content_type_for("x.webp"), "image/webp");
    assert_eq!(content_type_for("png"), "application/octet-stream");
    assert_eq!(content_type_for(""), "application/octet-stream");
}

#[test]
fn later_image_with_same_id_wins() {
    let mut images = ImageStore::new();
    images.insert("i.png".to_string(), vec![1]);
    images.insert("i.png".to_string(), vec![9]);
    assert_eq!(images.get("i.png"), Some(&vec![9]));
}

#[test]
fn error_status_codes() {
    assert_eq!(ApiError::Authorization.status_code(), 401);
    assert_eq!(ApiError::NotFound.status_code(), 404);
}
