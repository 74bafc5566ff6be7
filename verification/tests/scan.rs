use tfclean::tree::{clear_entries, recursive_clear, Entry, Node};

fn file(name: &str, first_line: Option<&str>) -> Entry {
    Entry {
        name: String::from(name),
        node: Node::File { first_line: first_line.map(String::from) },
    }
}

fn dir(name: &str, entries: Vec<Entry>) -> Entry {
    Entry { name: String::from(name), node: Node::Dir { entries } }
}

fn names(entries: &[Entry]) -> Vec<String> {
    entries.iter().map(|e| e.name.clone()).collect()
}

fn copy_node(n: &Node) -> Node {
    match n {
        Node::File { first_line } => Node::File { first_line: first_line.clone() },
        Node::Dir { entries } => Node::Dir { entries: entries.iter().map(copy_entry).collect() },
    }
}

fn copy_entry(e: &Entry) -> Entry {
    Entry { name: e.name.clone(), node: copy_node(&e.node) }
}

#[test]
fn scenario_terraform_dir_gone_git_untouched() {
    let tree = vec![
        dir(
            ".terraform",
            vec![file("providers.json", Some("{}")), dir("modules", vec![])],
        ),
        file("main.tf", Some("terraform {")),
        dir(".git", vec![file("HEAD", Some("ref: refs/heads/main")), dir("objects", vec![])]),
    ];
    let git = copy_entry(&tree[2]);
    let cleaned = clear_entries(tree);
    assert_eq!(names(&cleaned), vec!["main.tf", ".git"]);
    assert_eq!(cleaned[1], git);
}

#[test]
fn scenario_generated_versions_tf_deleted() {
    let tree = vec![file("versions.tf", Some("# Generated by Terragrunt"))];
    let cleaned = clear_entries(tree);
    assert!(cleaned.is_empty());
}

#[test]
fn scenario_marked_readme_not_deleted() {
    let tree = vec![file("README.md", Some("# Generated by Terragrunt"))];
    let cleaned = clear_entries(tree);
    assert_eq!(cleaned.len(), 1);
    assert_eq!(cleaned[0].name, "README.md");
}

#[test]
fn scenario_empty_dir_nothing_deleted() {
    let cleaned = clear_entries(Vec::new());
    assert!(cleaned.is_empty());
    let root = recursive_clear(Node::Dir { entries: Vec::new() });
    assert_eq!(root, Node::Dir { entries: Vec::new() });
}

#[test]
fn every_deletion_name_removed_as_file_and_as_dir() {
    let rule_names = [
        ".terraform",
        ".terraform.lock.hcl",
        ".terragrunt-cache",
        "tfplan",
        "terraform.tfstate",
        "terraform.tfstate.backup",
    ];
    let mut tree = Vec::new();
    for name in rule_names {
        tree.push(file(name, Some("state")));
    }
    for name in rule_names {
        tree.push(dir(name, vec![file("inner.txt", Some("x"))]));
    }
    tree.push(file("keep.txt", Some("x")));
    let cleaned = clear_entries(tree);
    assert_eq!(names(&cleaned), vec!["keep.txt"]);
}

#[test]
fn matching_dir_removed_wholesale_with_contents() {
    let tree = vec![dir(
        ".terragrunt-cache",
        vec![
            file("plain.txt", Some("not an artifact")),
            dir("nested", vec![file("tfplan", None)]),
        ],
    )];
    let cleaned = clear_entries(tree);
    assert!(cleaned.is_empty());
}

#[test]
fn scan_descends_into_plain_directories() {
    let tree = vec![dir(
        "envs",
        vec![dir("prod", vec![file("tfplan", None), file("main.tf", Some("locals {"))])],
    )];
    let cleaned = clear_entries(tree);
    assert_eq!(
        cleaned,
        vec![dir("envs", vec![dir("prod", vec![file("main.tf", Some("locals {"))])])]
    );
}

#[test]
fn ignored_git_subtree_is_untouched_even_with_artifacts_inside() {
    let tree = vec![dir(
        ".git",
        vec![file("tfplan", None), dir(".terraform", vec![file("x.tf", Some("# Generated by Terragrunt"))])],
    )];
    let expected = vec![dir(
        ".git",
        vec![file("tfplan", None), dir(".terraform", vec![file("x.tf", Some("# Generated by Terragrunt"))])],
    )];
    let cleaned = clear_entries(tree);
    assert_eq!(cleaned, expected);
}

#[test]
fn second_scan_deletes_nothing_further() {
    let tree = vec![
        dir(".terraform", vec![file("a", None)]),
        file("versions.tf", Some("# Managed via Terragrunt")),
        dir("src", vec![file("tfplan", None), file("ok.tf", Some("module {"))]),
        dir(".git", vec![file("tfplan", None)]),
    ];
    let once = clear_entries(tree);
    let again = once.iter().map(copy_entry).collect::<Vec<_>>();
    let twice = clear_entries(again);
    assert_eq!(twice, once);
}

#[test]
fn unreadable_tf_file_is_kept() {
    let tree = vec![file("broken.tf", None)];
    let cleaned = clear_entries(tree);
    assert_eq!(cleaned.len(), 1);
    assert_eq!(cleaned[0].name, "broken.tf");
}

#[test]
fn sibling_order_of_survivors_is_kept() {
    let tree = vec![
        file("a.txt", None),
        file("tfplan", None),
        file("b.txt", None),
        file("gen.tf", Some("# Generated by Terragrunt")),
        file("c.tf", Some("resource {}")),
    ];
    let cleaned = clear_entries(tree);
    assert_eq!(names(&cleaned), vec!["a.txt", "b.txt", "c.tf"]);
}

#[test]
fn file_root_is_left_as_it_is() {
    let root = Node::File { first_line: Some(String::from("# Generated by Terragrunt")) };
    let cleaned = recursive_clear(root);
    assert_eq!(cleaned, Node::File { first_line: Some(String::from("# Generated by Terragrunt")) });
}
