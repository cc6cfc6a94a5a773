use rgf::{unify_remote_name, REMOTE_TAG};

fn derive(s: &str) -> String {
    unify_remote_name(&s.to_string())
}

#[test]
fn derives_tagged_name() {
    assert_eq!(derive("acme/fork1"), "rgf__acme_fork1");
    assert_eq!(REMOTE_TAG, "rgf__");
}

#[test]
fn replaces_every_slash() {
    assert_eq!(derive("a/b/c"), "rgf__a_b_c");
    assert_eq!(derive(""), "rgf__");
    assert_eq!(derive("/"), "rgf___");
}

#[test]
fn length_grows_by_the_tag() {
    for s in ["", "acme/widgets", "żółw/ćma", "no-slash"] {
        assert_eq!(derive(s).chars().count(), s.chars().count() + REMOTE_TAG.chars().count());
    }
}

#[test]
fn derivation_is_deterministic() {
    assert_eq!(derive("google/battery-historian"), derive("google/battery-historian"));
}

#[test]
fn distinct_names_give_distinct_remotes() {
    assert_ne!(derive("acme/fork1"), derive("acme/fork2"));
    assert_ne!(derive("acme/fork"), derive("acme2/fork"));
}

#[test]
fn slash_and_underscore_collide() {
    assert_eq!(derive("a/b"), derive("a_b"));
}
