//! What goes into an archive, and under which name, and the archive's own
//! file name.
use chrono::{Datelike, Timelike};
use vstd::prelude::*;
use vstd::string::{StrSliceExecFns, StringExecFns};

verus! {

/// A path as its sequence of component names.
pub open spec fn components(path: &Vec<String>) -> Seq<Seq<char>> {
    path.deep_view()
}

/// `path` starts with the components of `prefix`.
pub open spec fn has_prefix(path: Seq<Seq<char>>, prefix: Seq<Seq<char>>) -> bool {
    prefix.len() <= path.len() && path.take(prefix.len() as int) == prefix
}

/// A name that starts with a dot.
pub open spec fn is_hidden(name: Seq<char>) -> bool {
    name.len() > 0 && name[0] == '.'
}

/// `path` relative to `root`; a path outside `root` stays as it is.
pub open spec fn relative_to(root: Seq<Seq<char>>, path: Seq<Seq<char>>) -> Seq<Seq<char>> {
    if has_prefix(path, root) {
        path.skip(root.len() as int)
    } else {
        path
    }
}

/// The entry at `path` goes into the archive of `root`: it is not the root
/// itself, no component of its relative path is hidden (where hidden entries
/// are excluded), and it lies under none of the excluded paths.
pub open spec fn entry_included(
    root: Seq<Seq<char>>,
    path: Seq<Seq<char>>,
    exclude_hidden: bool,
    excluded: Seq<Seq<Seq<char>>>,
) -> bool {
    &&& path != root
    &&& !(exclude_hidden && exists|k: int|
        0 <= k < relative_to(root, path).len() && is_hidden(#[trigger] relative_to(root, path)[k]))
    &&& forall|e: int| 0 <= e < excluded.len() ==> !has_prefix(path, #[trigger] excluded[e])
}

/// Whether `path` starts with the components of `prefix`.
fn starts_with(path: &Vec<String>, prefix: &Vec<String>) -> (r: bool)
    ensures
        r == has_prefix(components(path), components(prefix)),
{
    if prefix.len() > path.len() {
        return false;
    }
    let mut k: usize = 0;
    while k < prefix.len()
        invariant
            prefix@.len() <= path@.len(),
            k <= prefix@.len(),
            forall|j: int| 0 <= j < k ==> path@[j]@ == prefix@[j]@,
        decreases prefix.len() - k,
    {
        if path[k] != prefix[k] {
            proof {
                assert(components(path).take(prefix@.len() as int)[k as int] != components(prefix)[k as int]);
            }
            return false;
        }
        k = k + 1;
    }
    proof {
        assert(components(path).take(prefix@.len() as int) =~= components(prefix));
    }
    true
}

/// Whether a name starts with a dot.
fn hidden_name(name: &String) -> (r: bool)
    ensures
        r == is_hidden(name@),
{
    let s = name.as_str();
    if s.is_empty() {
        false
    } else {
        s.get_char(0) == '.'
    }
}

/// Decides whether the entry at `path` goes into the archive of the tree at
/// `root`, and if so gives its name in the archive: its path relative to
/// `root`.  Entries are left out when they are the root itself, when
/// `exclude_hidden` holds and a component of the relative path starts with a
/// dot, or when they lie under one of `exclude_paths`.
pub fn archive_entry_name(
    root: &Vec<String>,
    path: &Vec<String>,
    exclude_hidden: bool,
    exclude_paths: &Vec<Vec<String>>,
) -> (r: Option<Vec<String>>)
    ensures
        r is Some <==> entry_included(
            components(root),
            components(path),
            exclude_hidden,
            exclude_paths.deep_view(),
        ),
        r matches Some(rel) ==> components(&rel) == relative_to(components(root), components(path)),
{
    let under_root = starts_with(path, root);
    if under_root && path.len() == root.len() {
        proof {
            assert(components(path) =~= components(root));
        }
        return None;
    }
    let start: usize = if under_root {
        root.len()
    } else {
        0
    };
    let ghost rel_spec = relative_to(components(root), components(path));
    let mut rel: Vec<String> = Vec::new();
    let mut k: usize = start;
    proof {
        if !under_root {
            assert(components(path) != components(root)) by {
                if components(path) == components(root) {
                    assert(components(path).take(components(root).len() as int) =~= components(path));
                }
            }
        }
    }
    while k < path.len()
        invariant
            start <= k <= path@.len(),
            rel_spec == components(path).skip(start as int),
            rel_spec == relative_to(components(root), components(path)),
            rel@.len() == k - start,
            components(&rel) == components(path).subrange(start as int, k as int),
            forall|j: int| 0 <= j < rel@.len() ==> !(exclude_hidden && is_hidden(#[trigger] rel_spec[j])),
        decreases path.len() - k,
    {
        if exclude_hidden && hidden_name(&path[k]) {
            proof {
                assert(rel_spec[k - start] == components(path)[k as int]);
                assert(components(path)[k as int] == path@[k as int]@);
                assert(is_hidden(rel_spec[k - start]));
                assert(is_hidden(relative_to(components(root), components(path))[k - start]));
            }
            return None;
        }
        let comp = path[k].clone();
        let ghost old_rel = rel@;
        let ghost old_comps = components(&rel);
        rel.push(comp);
        proof {
            assert(components(&rel) =~= old_comps.push(comp@));
            assert(rel@ =~= old_rel.push(comp));
            assert(comp@ == path@[k as int]@);
            assert(components(path)[k as int] == path@[k as int]@);
            assert(components(&rel) =~= components(path).subrange(start as int, k + 1));
        }
        k = k + 1;
    }
    proof {
        assert(components(&rel) =~= rel_spec);
    }
    let mut e: usize = 0;
    while e < exclude_paths.len()
        invariant
            e <= exclude_paths@.len(),
            forall|i: int| 0 <= i < e ==> !has_prefix(components(path), #[trigger] exclude_paths.deep_view()[i]),
        decreases exclude_paths.len() - e,
    {
        if starts_with(path, &exclude_paths[e]) {
            proof {
                assert(exclude_paths.deep_view()[e as int] == components(&exclude_paths@[e as int]));
            }
            return None;
        }
        proof {
            assert(exclude_paths.deep_view()[e as int] == components(&exclude_paths@[e as int]));
        }
        e = e + 1;
    }
    Some(rel)
}

/// A local date and time to the minute, as the clock gives it.
#[derive(Debug, Clone, Copy, PartialEq, Eq, Structural)]
pub struct Timestamp {
    pub year: i32,
    pub month: u32,
    pub day: u32,
    pub hour: u32,
    pub minute: u32,
}

impl Timestamp {
    /// Every field in its calendar range, and a year of at most four digits.
    pub open spec fn wf(&self) -> bool {
        &&& 0 <= self.year <= 9999
        &&& 1 <= self.month <= 12
        &&& 1 <= self.day <= 31
        &&& self.hour < 24
        &&& self.minute < 60
    }
}

/// Relies on chrono's `Local::now` with `Datelike::{year, month, day}` and
/// `Timelike::{hour, minute}`: the current local time, whose month ranges over
/// 1 to 12, day over 1 to 31, hour over 0 to 23, minute over 0 to 59.
#[verifier::external_body]
fn local_now() -> (r: Timestamp)
    ensures
        1 <= r.month <= 12,
        1 <= r.day <= 31,
        r.hour < 24,
        r.minute < 60,
{
    let now = chrono::Local::now();
    Timestamp { year: now.year(), month: now.month(), day: now.day(), hour: now.hour(), minute: now.minute() }
}

/// The decimal digit `d`.
pub open spec fn digit_char(d: nat) -> char {
    if d == 0 { '0' } else if d == 1 { '1' } else if d == 2 { '2' } else if d == 3 { '3' }
    else if d == 4 { '4' } else if d == 5 { '5' } else if d == 6 { '6' } else if d == 7 { '7' }
    else if d == 8 { '8' } else { '9' }
}

/// The last `n` decimal digits of `v`, zero-padded, most significant first.
pub open spec fn digits(v: nat, n: nat) -> Seq<char>
    decreases n,
{
    if n == 0 {
        seq![]
    } else {
        digits(v / 10, (n - 1) as nat) + seq![digit_char(v % 10)]
    }
}

/// `t` written as `YYYYMMDDHHmm`.
pub open spec fn stamp_text(t: Timestamp) -> Seq<char> {
    digits(t.year as nat, 4) + digits(t.month as nat, 2) + digits(t.day as nat, 2) + digits(
        t.hour as nat,
        2,
    ) + digits(t.minute as nat, 2)
}

/// The file name of the archive made at `t`: `backup-YYYYMMDDHHmm.tar.xz`.
pub open spec fn archive_name_of(t: Timestamp) -> Seq<char> {
    seq!['b', 'a', 'c', 'k', 'u', 'p', '-'] + stamp_text(t) + seq!['.', 't', 'a', 'r', '.', 'x', 'z']
}

fn digit_str(d: u32) -> (r: &'static str)
    requires
        d < 10,
    ensures
        r@ == seq![digit_char(d as nat)],
{
    proof {
        reveal_strlit("0");
        reveal_strlit("1");
        reveal_strlit("2");
        reveal_strlit("3");
        reveal_strlit("4");
        reveal_strlit("5");
        reveal_strlit("6");
        reveal_strlit("7");
        reveal_strlit("8");
        reveal_strlit("9");
    }
    if d == 0 { "0" } else if d == 1 { "1" } else if d == 2 { "2" } else if d == 3 { "3" }
    else if d == 4 { "4" } else if d == 5 { "5" } else if d == 6 { "6" } else if d == 7 { "7" }
    else if d == 8 { "8" } else { "9" }
}

/// Appends the last `n` decimal digits of `v` to `s`.
fn push_digits(s: &mut String, v: u32, n: u32)
    ensures
        final(s)@ == old(s)@ + digits(v as nat, n as nat),
    decreases n,
{
    if n > 0 {
        push_digits(s, v / 10, n - 1);
        s.append(digit_str(v % 10));
        proof {
            assert(final(s)@ =~= old(s)@ + digits(v as nat, n as nat));
        }
    } else {
        proof {
            assert(final(s)@ =~= old(s)@ + digits(v as nat, n as nat));
        }
    }
}

/// The file name of the archive made at `t`, where `t` is well formed.
pub fn archive_file_name(t: &Timestamp) -> (r: Option<String>)
    ensures
        r is Some <==> t.wf(),
        r matches Some(name) ==> name@ == archive_name_of(*t),
{
    if t.year < 0 || t.year > 9999 || t.month < 1 || t.month > 12 || t.day < 1 || t.day > 31
        || t.hour >= 24 || t.minute >= 60 {
        return None;
    }
    let mut s = String::from_str("backup-");
    push_digits(&mut s, t.year as u32, 4);
    push_digits(&mut s, t.month, 2);
    push_digits(&mut s, t.day, 2);
    push_digits(&mut s, t.hour, 2);
    push_digits(&mut s, t.minute, 2);
    s.append(".tar.xz");
    proof {
        reveal_strlit("backup-");
        reveal_strlit(".tar.xz");
        assert(s@ =~= archive_name_of(*t));
    }
    Some(s)
}

/// The file name for an archive made now, from the local clock; `None` where
/// the clock gives a year outside 0 to 9999.
pub fn new_archive_name() -> (r: Option<String>)
    ensures
        r matches Some(name) ==> exists|t: Timestamp| t.wf() && name@ == archive_name_of(t),
{
    let now = local_now();
    archive_file_name(&now)
}

} // verus!
