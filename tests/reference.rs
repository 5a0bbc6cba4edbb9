use std::collections::HashSet;

use docker_image::reference::{
    auth_scope, is_insecure_registry, parse_image, DockerImage, FieldValue,
};

fn resolve(value: &str) -> (String, String, String, String) {
    let d = DockerImage::from_reference(value);
    (d.registry, d.image, d.tag, d.path)
}

#[test]
fn short_name_with_tag() {
    let (registry, image, tag, path) = resolve("alpine:3.18");
    assert_eq!(registry, "registry-1.docker.io");
    assert_eq!(image, "library/alpine");
    assert_eq!(tag, "3.18");
    assert_eq!(path, "/");
}

#[test]
fn dotted_registry_keeps_path() {
    let (registry, image, tag, path) = resolve("gcr.io/distroless/base");
    assert_eq!(registry, "gcr.io");
    assert_eq!(image, "distroless/base");
    assert_eq!(tag, "latest");
    assert_eq!(path, "/");
}

#[test]
fn registry_with_port() {
    let (registry, image, tag, _) = resolve("localhost:5000/myimg");
    assert_eq!(registry, "localhost:5000");
    assert_eq!(image, "myimg");
    assert_eq!(tag, "latest");
}

#[test]
fn canonical_form_round_trips() {
    let parts = parse_image("example.com:5000/ns/img:v1.2");
    assert_eq!(parts.registry.as_deref(), Some("example.com:5000"));
    assert_eq!(parts.image, "ns/img");
    assert_eq!(parts.tag.as_deref(), Some("v1.2"));
}

#[test]
fn bare_name_gets_namespace() {
    let parts = parse_image("foo");
    assert_eq!(parts.registry, None);
    assert_eq!(parts.image, "library/foo");
    assert_eq!(parts.tag, None);
    let (registry, image, tag, _) = resolve("foo");
    assert_eq!(registry, "registry-1.docker.io");
    assert_eq!(image, "library/foo");
    assert_eq!(tag, "latest");
}

#[test]
fn localhost_is_a_registry() {
    let (registry, image, tag, _) = resolve("localhost/foo");
    assert_eq!(registry, "localhost");
    assert_eq!(image, "foo");
    assert_eq!(tag, "latest");
}

#[test]
fn plain_namespace_is_not_a_registry() {
    let (registry, image, tag, _) = resolve("foo/bar");
    assert_eq!(registry, "registry-1.docker.io");
    assert_eq!(image, "foo/bar");
    assert_eq!(tag, "latest");
}

#[test]
fn tag_is_split_at_last_colon() {
    let parts = parse_image("myreg:5000/img:tag");
    assert_eq!(parts.registry.as_deref(), Some("myreg:5000"));
    assert_eq!(parts.image, "img");
    assert_eq!(parts.tag.as_deref(), Some("tag"));
    let parts = parse_image("ns/img:1:2");
    assert_eq!(parts.registry, None);
    assert_eq!(parts.image, "ns/img:1");
    assert_eq!(parts.tag.as_deref(), Some("2"));
}

#[test]
fn insecure_match_ignores_port() {
    let mut set = HashSet::new();
    set.insert("example.com".to_string());
    assert!(is_insecure_registry("example.com:5000", &set));
    assert!(is_insecure_registry("example.com", &set));
    assert!(!is_insecure_registry("example.org:5000", &set));
    assert!(!is_insecure_registry("other.example.com", &set));
}

#[test]
fn explicit_insecure_setting_wins() {
    let mut set = HashSet::new();
    set.insert("example.com".to_string());
    let mut d = DockerImage::from_reference("example.com:5000/img");
    assert!(d.insecure_for(&set));
    d.insecure = Some(false);
    assert!(!d.insecure_for(&set));
    let mut e = DockerImage::from_reference("alpine");
    assert!(!e.insecure_for(&set));
    e.insecure = Some(true);
    assert!(e.insecure_for(&set));
}

#[test]
fn destination_under_target_root() {
    let mut d = DockerImage::from_reference("alpine");
    assert_eq!(d.destination(), "/vagga/root/");
    d.path = "/opt/app".to_string();
    assert_eq!(d.destination(), "/vagga/root/opt/app");
}

#[test]
fn hash_fields_in_order() {
    let d = DockerImage::from_reference("gcr.io/distroless/base:v1");
    let fields = d.hash_fields();
    let names: Vec<&str> = fields.iter().map(|f| f.0).collect();
    assert_eq!(names, vec!["registry", "image", "tag", "insecure", "path"]);
    assert!(matches!(&fields[0].1, FieldValue::Text(t) if t == "gcr.io"));
    assert!(matches!(&fields[1].1, FieldValue::Text(t) if t == "distroless/base"));
    assert!(matches!(&fields[2].1, FieldValue::Text(t) if t == "v1"));
    assert!(matches!(&fields[3].1, FieldValue::Flag(None)));
    assert!(matches!(&fields[4].1, FieldValue::Text(t) if t == "/"));
}

#[test]
fn step_identity() {
    let d = DockerImage::from_reference("alpine");
    assert_eq!(d.name(), "DockerImage");
    assert!(d.is_dependent_on().is_none());
    assert_eq!(auth_scope("library/alpine"), "repository:library/alpine:pull");
}
