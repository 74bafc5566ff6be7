//! Classification rules for directory entries.
//!
//! An entry is classified from its basename, its extension and, for
//! eligible extensions, the first line of its content: it is either
//! ignored (skipped with its whole subtree), deleted, or left alone.

use vstd::prelude::*;

verus! {

/// True when `name` is in the ignore set: such an entry is skipped
/// entirely, together with everything beneath it.
pub open spec fn is_ignored_name(name: Seq<char>) -> bool {
    name == ".git"@
}

/// Compares two string slices character by character.
fn str_eq(a: &str, b: &str) -> (r: bool)
    ensures
        r == (a@ == b@),
{
    let n = a.unicode_len();
    let m = b.unicode_len();
    if n != m {
        return false;
    }
    let mut i: usize = 0;
    while i < n
        invariant
            n == a@.len(),
            n == b@.len(),
            i <= n,
            forall|j: int| 0 <= j < i ==> a@[j] == b@[j],
        decreases n - i,
    {
        if a.get_char(i) != b.get_char(i) {
            return false;
        }
        i = i + 1;
    }
    proof {
        assert(a@ =~= b@);
    }
    true
}

/// Decides whether an entry with basename `name` is ignore-listed and
/// must be skipped without deletion and without descent.
pub fn check_if_should_be_ignored(name: &str) -> (r: bool)
    ensures
        r == is_ignored_name(name@),
{
    str_eq(name, ".git")
}

/// True when `name` is in the deletion rule set: such an entry is
/// removed unconditionally, whatever its type or contents.
pub open spec fn is_deletion_name(name: Seq<char>) -> bool {
    ||| name == ".terraform"@
    ||| name == ".terraform.lock.hcl"@
    ||| name == ".terragrunt-cache"@
    ||| name == "tfplan"@
    ||| name == "terraform.tfstate"@
    ||| name == "terraform.tfstate.backup"@
}

/// Decides whether `name` exactly matches one of the deletion rules.
pub fn is_deletion_rule_name(name: &str) -> (r: bool)
    ensures
        r == is_deletion_name(name@),
{
    str_eq(name, ".terraform") || str_eq(name, ".terraform.lock.hcl") || str_eq(
        name,
        ".terragrunt-cache",
    ) || str_eq(name, "tfplan") || str_eq(name, "terraform.tfstate") || str_eq(
        name,
        "terraform.tfstate.backup",
    )
}

/// True when the substring of `name` after its final `.` is `ext`:
/// the dot at position `d` is the last one, and `ext` follows it.
pub open spec fn extension_is(name: Seq<char>, ext: Seq<char>) -> bool {
    exists|d: int|
        {
            &&& 0 <= d < name.len()
            &&& #[trigger] name[d] == '.'
            &&& (forall|j: int| d < j < name.len() ==> name[j] != '.')
            &&& name.subrange(d + 1, name.len() as int) == ext
        }
}

/// True when `name` has an extension in the content-sniff set, that
/// is, when the substring after its final `.` is `tf`.
pub open spec fn has_sniff_extension(name: Seq<char>) -> bool {
    extension_is(name, "tf"@)
}

/// Decides whether an entry with basename `name` is eligible for the
/// first-line content check, which holds exactly of `tf` files.
pub fn if_should_be_checked_for_terragrunt_generated(name: &str) -> (r: bool)
    ensures
        r == has_sniff_extension(name@),
{
    proof {
        reveal_strlit("tf");
    }
    let n = name.unicode_len();
    if n < 3 {
        proof {
            assert forall|d: int|
                !(0 <= d < name@.len() && name@[d] == '.' && (forall|j: int|
                    d < j < name@.len() ==> name@[j] != '.') && name@.subrange(
                    d + 1,
                    name@.len() as int,
                ) == "tf"@) by {
                reveal_strlit("tf");
                if 0 <= d < name@.len() && name@.subrange(d + 1, name@.len() as int) == "tf"@ {
                    assert(name@.subrange(d + 1, name@.len() as int).len() == 2);
                }
            }
        }
        return false;
    }
    let dot = name.get_char(n - 3);
    let t = name.get_char(n - 2);
    let f = name.get_char(n - 1);
    let r = dot == '.' && t == 't' && f == 'f';
    proof {
        let nl = name@.len() as int;
        if r {
            assert(name@[nl - 3] == '.' && (forall|j: int| nl - 3 < j < nl ==> name@[j] != '.')
                && name@.subrange(nl - 2, nl) =~= "tf"@);
        } else {
            assert forall|d: int|
                !(0 <= d < nl && name@[d] == '.' && (forall|j: int|
                    d < j < nl ==> name@[j] != '.') && name@.subrange(d + 1, nl) == "tf"@) by {
                reveal_strlit("tf");
                if 0 <= d < nl && name@[d] == '.' && name@.subrange(d + 1, nl) == "tf"@ {
                    assert(name@.subrange(d + 1, nl).len() == nl - (d + 1));
                    assert(nl - (d + 1) == 2);
                    assert(name@[d + 1] == name@.subrange(d + 1, nl)[0]);
                    assert(name@[d + 2] == name@.subrange(d + 1, nl)[1]);
                }
            }
        }
    }
    r
}

/// True when `needle` occurs in `hay` starting at position `k`.
pub open spec fn occurs_at(hay: Seq<char>, needle: Seq<char>, k: int) -> bool {
    &&& 0 <= k
    &&& k + needle.len() <= hay.len()
    &&& hay.subrange(k, k + needle.len() as int) == needle
}

/// True when `needle` occurs somewhere in `hay` as a contiguous
/// substring.
pub open spec fn contains_seq(hay: Seq<char>, needle: Seq<char>) -> bool {
    exists|k: int| occurs_at(hay, needle, k)
}

/// Decides whether `needle` is a substring of `hay`.
fn str_contains(hay: &str, needle: &str) -> (r: bool)
    ensures
        r == contains_seq(hay@, needle@),
{
    let n = hay.unicode_len();
    let m = needle.unicode_len();
    if m > n {
        return false;
    }
    if m == 0 {
        proof {
            assert(hay@.subrange(0, 0) =~= needle@);
            assert(occurs_at(hay@, needle@, 0));
        }
        return true;
    }
    let mut k: usize = 0;
    while k <= n - m
        invariant
            n == hay@.len(),
            m == needle@.len(),
            1 <= m <= n,
            k <= n - m + 1,
            forall|t: int| 0 <= t < k ==> !occurs_at(hay@, needle@, t),
        decreases n - m + 1 - k,
    {
        let mut j: usize = 0;
        let mut mismatch = false;
        while j < m
            invariant
                n == hay@.len(),
                m == needle@.len(),
                1 <= m <= n,
                k <= n - m,
                j <= m,
                !mismatch ==> forall|t: int| 0 <= t < j ==> hay@[k + t] == needle@[t],
                mismatch ==> !occurs_at(hay@, needle@, k as int),
            decreases m - j,
        {
            if !mismatch && hay.get_char(k + j) != needle.get_char(j) {
                mismatch = true;
                proof {
                    if occurs_at(hay@, needle@, k as int) {
                        assert(hay@.subrange(k as int, k + needle@.len() as int)[j as int]
                            == needle@[j as int]);
                    }
                }
            }
            j = j + 1;
        }
        if !mismatch {
            proof {
                assert(hay@.subrange(k as int, k + needle@.len() as int) =~= needle@);
                assert(occurs_at(hay@, needle@, k as int));
            }
            return true;
        }
        k = k + 1;
    }
    proof {
        assert forall|t: int| !occurs_at(hay@, needle@, t) by {
            if occurs_at(hay@, needle@, t) {
                assert(0 <= t <= n - m);
            }
        }
    }
    false
}

/// True when `line` carries one of the generated-file markers as a
/// substring.
pub open spec fn line_has_marker(line: Seq<char>) -> bool {
    ||| contains_seq(line, "# Generated by Terragrunt"@)
    ||| contains_seq(line, "# Managed via Terragrunt"@)
}

/// Decides whether a first line carries a generated-file marker.
pub fn line_marks_generated(line: &str) -> (r: bool)
    ensures
        r == line_has_marker(line@),
{
    str_contains(line, "# Generated by Terragrunt") || str_contains(
        line,
        "# Managed via Terragrunt",
    )
}

/// True when an entry must be deleted, given its basename and the
/// outcome of sniffing its first line: `None` when the entry could
/// not be read as a file, `Some(l)` when its first line is `l`.
/// An entry is deleted when its basename matches a deletion rule, or
/// when it is a readable file with a sniffable extension whose first
/// line carries a generated-file marker.
pub open spec fn should_delete(name: Seq<char>, first_line: Option<Seq<char>>) -> bool {
    ||| is_deletion_name(name)
    ||| (has_sniff_extension(name) && first_line is Some && line_has_marker(first_line->0))
}

/// Decides whether the entry with basename `name` is marked for
/// deletion. `first_line` is the result of the content sniff: `None`
/// when the entry is not readable as a file, otherwise its first
/// line. A failed sniff never marks an entry.
pub fn check_if_should_be_deleted(name: &str, first_line: Option<&str>) -> (r: bool)
    ensures
        r == should_delete(name@, first_line.deep_view()),
{
    if is_deletion_rule_name(name) {
        return true;
    }
    if if_should_be_checked_for_terragrunt_generated(name) {
        match first_line {
            Some(line) => line_marks_generated(line),
            None => false,
        }
    } else {
        false
    }
}

/// The ignore set and the deletion rule set are disjoint: an
/// ignore-listed basename never matches a deletion rule.
pub proof fn lemma_ignored_name_not_deletion(name: Seq<char>)
    ensures
        is_ignored_name(name) ==> !is_deletion_name(name),
{
    reveal_strlit(".git");
    reveal_strlit(".terraform");
    reveal_strlit(".terraform.lock.hcl");
    reveal_strlit(".terragrunt-cache");
    reveal_strlit("tfplan");
    reveal_strlit("terraform.tfstate");
    reveal_strlit("terraform.tfstate.backup");
    assert(".git"@.len() == 4);
    assert(".terraform"@.len() == 10);
    assert(".terraform.lock.hcl"@.len() == 19);
    assert(".terragrunt-cache"@.len() == 17);
    assert("tfplan"@.len() == 6);
    assert("terraform.tfstate"@.len() == 17);
    assert("terraform.tfstate.backup"@.len() == 24);
}

/// An ignore-listed basename has no sniffable extension, so the
/// content rule never applies to an ignored entry either.
pub proof fn lemma_ignored_name_not_sniffable(name: Seq<char>)
    ensures
        is_ignored_name(name) ==> !has_sniff_extension(name),
{
    reveal_strlit(".git");
    reveal_strlit("tf");
    if is_ignored_name(name) && has_sniff_extension(name) {
        let d = choose|d: int|
            {
                &&& 0 <= d < name.len()
                &&& #[trigger] name[d] == '.'
                &&& (forall|j: int| d < j < name.len() ==> name[j] != '.')
                &&& name.subrange(d + 1, name.len() as int) == "tf"@
            };
        assert(name.subrange(d + 1, name.len() as int).len() == name.len() - (d + 1));
        assert(d == 1);
        assert(name[1] == 'g');
    }
}

} // verus!
