use tfclean::rules::{
    check_if_should_be_deleted, check_if_should_be_ignored,
    if_should_be_checked_for_terragrunt_generated, line_marks_generated,
};

#[test]
fn git_is_ignored() {
    assert!(check_if_should_be_ignored(".git"));
}

#[test]
fn near_misses_are_not_ignored() {
    assert!(!check_if_should_be_ignored("git"));
    assert!(!check_if_should_be_ignored(".gitignore"));
    assert!(!check_if_should_be_ignored(""));
    assert!(!check_if_should_be_ignored(".Git"));
}

#[test]
fn every_deletion_rule_name_is_deleted() {
    for name in [
        ".terraform",
        ".terraform.lock.hcl",
        ".terragrunt-cache",
        "tfplan",
        "terraform.tfstate",
        "terraform.tfstate.backup",
    ] {
        assert!(check_if_should_be_deleted(name, None), "{name}");
    }
}

#[test]
fn near_misses_of_deletion_rules_are_kept() {
    for name in [
        "terraform",
        ".terraform2",
        "tfplan.txt",
        "terraform.tfstate.backup.old",
        " tfplan",
        "",
    ] {
        assert!(!check_if_should_be_deleted(name, None), "{name}");
    }
}

#[test]
fn tf_extension_is_sniffable() {
    assert!(if_should_be_checked_for_terragrunt_generated("main.tf"));
    assert!(if_should_be_checked_for_terragrunt_generated("a.b.tf"));
    assert!(if_should_be_checked_for_terragrunt_generated(".tf"));
}

#[test]
fn other_extensions_are_not_sniffable() {
    assert!(!if_should_be_checked_for_terragrunt_generated("tf"));
    assert!(!if_should_be_checked_for_terragrunt_generated("main.tf.bak"));
    assert!(!if_should_be_checked_for_terragrunt_generated("README.md"));
    assert!(!if_should_be_checked_for_terragrunt_generated("main.TF"));
    assert!(!if_should_be_checked_for_terragrunt_generated(""));
}

#[test]
fn both_markers_are_recognised() {
    assert!(line_marks_generated("# Generated by Terragrunt"));
    assert!(line_marks_generated("# Managed via Terragrunt"));
}

#[test]
fn markers_are_found_as_substrings() {
    assert!(line_marks_generated("## # Generated by Terragrunt v0.35"));
    assert!(line_marks_generated("x# Managed via Terragrunty"));
}

#[test]
fn similar_lines_are_no_markers() {
    assert!(!line_marks_generated(""));
    assert!(!line_marks_generated("# Generated by Terraform"));
    assert!(!line_marks_generated("# Managed by Terragrunt"));
    assert!(!line_marks_generated("Generated by Terragrunt"));
}

#[test]
fn marked_tf_file_is_deleted() {
    assert!(check_if_should_be_deleted(
        "versions.tf",
        Some("# Generated by Terragrunt")
    ));
    assert!(check_if_should_be_deleted(
        "versions.tf",
        Some("# Managed via Terragrunt")
    ));
}

#[test]
fn plain_tf_file_is_kept() {
    assert!(!check_if_should_be_deleted("versions.tf", Some("terraform {")));
    assert!(!check_if_should_be_deleted("versions.tf", Some("")));
}

#[test]
fn marker_outside_tf_extension_is_not_sniffed() {
    assert!(!check_if_should_be_deleted(
        "README.md",
        Some("# Generated by Terragrunt")
    ));
}

#[test]
fn unreadable_file_never_matches_content_rule() {
    assert!(!check_if_should_be_deleted("versions.tf", None));
}

#[test]
fn deletion_rule_wins_over_unreadable_content() {
    assert!(check_if_should_be_deleted(
        ".terraform.lock.hcl",
        None
    ));
}
