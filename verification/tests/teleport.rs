use ash::teleport::{Host, Label, Metadata, Spec};

fn label(key: &str, value: &str) -> Label {
    Label { key: key.to_string(), value: value.to_string() }
}

fn host(key: &str, hostname: &str, labels: Vec<Label>) -> Host {
    Host {
        kind: "node".to_string(),
        version: "v2".to_string(),
        metadata: Metadata {
            name: key.to_string(),
            labels,
            expires: "2024-01-01T00:00:00Z".to_string(),
            id: 1.5f64.to_bits(),
        },
        spec: Spec {
            addr: "10.0.0.1:3022".to_string(),
            hostname: hostname.to_string(),
            use_tunnel: Some(false),
            version: "12.0.0".to_string(),
            public_addr: None,
        },
    }
}

#[test]
fn name_and_key_are_hostname_and_metadata_name() {
    let h = host("h1", "alpha", vec![]);
    assert_eq!(h.name(), "alpha");
    assert_eq!(h.key(), "h1");
}

#[test]
fn hosts_with_one_key_are_equal_whatever_their_labels() {
    let a = host("h1", "alpha", vec![label("env", "prod")]);
    let b = host("h1", "other", vec![label("env", "dev"), label("x", "y")]);
    let c = host("h2", "alpha", vec![label("env", "prod")]);
    assert!(a == b);
    assert_eq!(a, b);
    assert!(a != c);
}

#[test]
fn clone_keeps_every_field() {
    let mut h = host("h1", "alpha", vec![label("env", "prod"), label("cluster", "aws")]);
    h.spec.public_addr = Some("1.2.3.4".to_string());
    let c = h.clone();
    assert_eq!(c.kind, "node");
    assert_eq!(c.version, "v2");
    assert_eq!(c.metadata.name, "h1");
    assert_eq!(c.metadata.expires, "2024-01-01T00:00:00Z");
    assert_eq!(c.metadata.id, 1.5f64.to_bits());
    assert_eq!(f64::from_bits(c.metadata.id), 1.5);
    assert_eq!(c.metadata.labels.len(), 2);
    assert_eq!(c.metadata.labels[0].key, "env");
    assert_eq!(c.metadata.labels[0].value, "prod");
    assert_eq!(c.metadata.labels[1].key, "cluster");
    assert_eq!(c.metadata.labels[1].value, "aws");
    assert_eq!(c.spec.addr, "10.0.0.1:3022");
    assert_eq!(c.spec.hostname, "alpha");
    assert_eq!(c.spec.use_tunnel, Some(false));
    assert_eq!(c.spec.version, "12.0.0");
    assert_eq!(c.spec.public_addr, Some("1.2.3.4".to_string()));
}

#[test]
fn ssh_name_appends_the_cluster() {
    let h = host("h1", "alpha", vec![label("env", "prod"), label("cluster", "aws")]);
    assert_eq!(h.ssh_name(), "alpha.aws");
}

#[test]
fn ssh_name_without_cluster_ends_in_the_dot() {
    let h = host("h1", "alpha", vec![label("env", "prod")]);
    assert_eq!(h.ssh_name(), "alpha.");
}

#[test]
fn label_finds_the_first_value_of_a_key() {
    let h = host("h1", "alpha", vec![label("env", "prod"), label("cluster", "aws")]);
    assert_eq!(h.label("cluster"), Some("aws"));
    assert_eq!(h.label("env"), Some("prod"));
    assert_eq!(h.label("none"), None);
    assert_eq!(h.label(""), None);
}

#[test]
fn to_string_shows_labels_as_pairs_joined_by_commas() {
    let h = host("h1", "alpha", vec![label("env", "prod"), label("cluster", "aws")]);
    assert_eq!(h.to_string(), "env: prod, cluster: aws");
}

#[test]
fn to_string_of_one_label_has_no_separator() {
    let h = host("h1", "alpha", vec![label("env", "prod")]);
    assert_eq!(h.to_string(), "env: prod");
}

#[test]
fn to_string_without_labels_is_empty() {
    let h = host("h1", "alpha", vec![]);
    assert_eq!(h.to_string(), "");
}

#[test]
fn to_string_leaves_out_internal_labels() {
    let h = host(
        "h1",
        "alpha",
        vec![
            label("teleport.internal/resource-id", "abc"),
            label("env", "prod"),
            label("teleport.internal", "x"),
            label("teleport.interna", "kept"),
            label("xteleport.internal", "kept too"),
        ],
    );
    assert_eq!(h.to_string(), "env: prod, teleport.interna: kept, xteleport.internal: kept too");
}

#[test]
fn to_string_of_only_internal_labels_is_empty() {
    let h = host("h1", "alpha", vec![label("teleport.internal/a", "1"), label("teleport.internal/b", "2")]);
    assert_eq!(h.to_string(), "");
}
