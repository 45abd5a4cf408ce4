//! XDG autostart entries: what a `.desktop` file says of its entry, and what
//! the entry becomes once toggled.
//!
//! Disable strategy for an unprivileged user: a user-scope file gets
//! `Hidden=true` in place; a system-scope file is copied to the user's
//! autostart directory with `Hidden=true`, so that the override masks the
//! system entry. Enable undoes this.

use vstd::prelude::*;

pub use crate::desktop::rewrite_hidden;
use crate::desktop::{scan_desktop_entry, scan_entry};
use crate::ordering::{compare_bytes, key_views, stable_order, stable_sort_by_keys};
use crate::text::{bytes_of, lowercase_of, to_lowercase};

use vstd::utf8::encode_utf8;

verus! {

/// `std::path::PathBuf`, carried through without being looked into.
#[verifier::external_type_specification]
#[verifier::external_body]
pub struct ExPathBuf(std::path::PathBuf);

/// `PathBuf::clone`, which the entry's derived `Clone` calls; nothing is
/// claimed of the copy.
pub assume_specification[ <std::path::PathBuf as Clone>::clone ](p: &std::path::PathBuf) -> std::path::PathBuf;

/// Where an autostart entry lives.
#[derive(Debug, Clone, Copy, PartialEq, Eq, Structural)]
pub enum AutostartScope {
    User,
    System,
}

/// An autostart entry as the Startup tab shows it.
#[derive(Debug, Clone)]
pub struct AutostartEntry {
    pub name: String,
    /// The `Exec=` command line.
    pub command: String,
    pub path: std::path::PathBuf,
    pub scope: AutostartScope,
    pub enabled: bool,
}

/// Builds the entry of the desktop file at `path` from its contents `raw`;
/// `stem` (the file name without extension) is the name when the file gives
/// none. The entry is enabled unless the file hides it.
pub fn entry_from_desktop(
    raw: &str,
    stem: String,
    path: std::path::PathBuf,
    scope: AutostartScope,
) -> (e: AutostartEntry)
    ensures
        e.name@ == scan_entry(raw@, stem@).name,
        e.command@ == scan_entry(raw@, stem@).command,
        e.enabled == !scan_entry(raw@, stem@).hidden,
        e.path == path,
        e.scope == scope,
{
    let (name, command, hidden) = scan_desktop_entry(raw, stem);
    AutostartEntry { name, command, path, scope, enabled: !hidden }
}

impl AutostartEntry {
    /// The entry after it was toggled to `enabled` by rewriting the file at
    /// `target`: the same name and command, now a user-scope entry there.
    pub fn toggled(&self, target: std::path::PathBuf, enabled: bool) -> (e: AutostartEntry)
        ensures
            e.name@ == self.name@,
            e.command@ == self.command@,
            e.path == target,
            e.scope == AutostartScope::User,
            e.enabled == enabled,
    {
        AutostartEntry {
            name: self.name.clone(),
            command: self.command.clone(),
            path: target,
            scope: AutostartScope::User,
            enabled,
        }
    }
}

/// An entry found on disk, with the bytes of its file name (none for a
/// path without one).
#[derive(Debug)]
pub struct FoundEntry {
    pub entry: AutostartEntry,
    pub file_name: Option<Vec<u8>>,
}

pub open spec fn file_name_view(f: FoundEntry) -> Option<Seq<u8>> {
    match f.file_name {
        Some(v) => Some(v@),
        None => None,
    }
}

/// The key the list is ordered by: the entry's name, lower-cased, as bytes.
pub open spec fn entry_key(f: FoundEntry) -> Seq<u8> {
    encode_utf8(lowercase_of(f.entry.name@))
}

/// Some user entry of `all` has the file name `v`.
pub open spec fn user_has(all: Seq<FoundEntry>, v: Seq<u8>) -> bool {
    exists|j: int|
        0 <= j < all.len() && all[j].entry.scope == AutostartScope::User && #[trigger] file_name_view(
            all[j],
        ) == Some(v)
}

/// `f` is a system entry that a user entry of `all` overrides: the user
/// directory holds a file of the same name.
pub open spec fn overridden(all: Seq<FoundEntry>, f: FoundEntry) -> bool {
    &&& f.entry.scope == AutostartScope::System
    &&& match file_name_view(f) {
        Some(v) => user_has(all, v),
        None => false,
    }
}

/// `v` is among the byte strings of `seen`.
pub open spec fn among(seen: Seq<Vec<u8>>, v: Seq<u8>) -> bool {
    exists|q: int| 0 <= q < seen.len() && #[trigger] seen[q]@ == v
}

/// The entries of `s` that no user entry of `all` overrides, in order.
pub open spec fn kept(all: Seq<FoundEntry>, s: Seq<FoundEntry>) -> Seq<AutostartEntry>
    decreases s.len(),
{
    if s.len() == 0 {
        seq![]
    } else {
        let front = kept(all, s.drop_last());
        if overridden(all, s.last()) {
            front
        } else {
            front.push(s.last().entry)
        }
    }
}

/// The found entries ordered by lower-cased name, equal names in the order
/// found.
pub open spec fn by_name(found: Seq<FoundEntry>) -> Seq<FoundEntry> {
    stable_order(found.map_values(|f: FoundEntry| entry_key(f))).map_values(|p: int| found[p])
}

/// The Startup tab's list from the entries found (user directory first,
/// then the system one): ordered by lower-cased name, equal names in the
/// order found, and every system entry dropped whose file name a user
/// entry has, since the user's copy overrides it.
pub fn merge_entries(found: Vec<FoundEntry>) -> (r: Vec<AutostartEntry>)
    ensures
        r@ == kept(found@, by_name(found@)),
{
    broadcast use vstd::std_specs::vec::axiom_spec_into_iter;

    let ghost orig = found@;
    let mut items = found;
    let n = items.len();
    let mut keys: Vec<Vec<u8>> = Vec::new();
    let mut user_names: Vec<Vec<u8>> = Vec::new();
    let mut i: usize = 0;
    while i < n
        invariant
            items@ == orig,
            n == items@.len(),
            i <= n,
            keys@.len() == i,
            forall|q: int| 0 <= q < i ==> #[trigger] keys@[q]@ == entry_key(items@[q]),
            forall|v: Seq<u8>| #[trigger] among(user_names@, v) <==> user_has(orig.take(i as int), v),
        decreases n - i,
    {
        let lowered = to_lowercase(items[i].entry.name.as_str());
        keys.push(bytes_of(lowered.as_str()));
        let ghost before = user_names@;
        let ghost t = orig.take(i + 1);
        assert(orig.take(i as int) =~= t.drop_last());
        if items[i].entry.scope == AutostartScope::User {
            match &items[i].file_name {
                Some(name) => {
                    user_names.push(copy_bytes(name));
                },
                None => {},
            }
        }
        proof {
            assert forall|v: Seq<u8>| #[trigger] among(user_names@, v) <==> user_has(t, v) by {
                if among(user_names@, v) {
                    let q = choose|q: int| 0 <= q < user_names@.len() && #[trigger] user_names@[q]@ == v;
                    if q < before.len() {
                        assert(before[q] == user_names@[q]);
                        assert(among(before, v));
                        assert(user_has(orig.take(i as int), v));
                        let j = choose|j: int|
                            0 <= j < i && orig.take(i as int)[j].entry.scope == AutostartScope::User
                                && #[trigger] file_name_view(orig.take(i as int)[j]) == Some(v);
                        assert(t[j] == orig.take(i as int)[j]);
                        assert(file_name_view(t[j]) == Some(v));
                    } else {
                        assert(t[i as int] == orig[i as int]);
                        assert(file_name_view(t[i as int]) == Some(v));
                    }
                    assert(user_has(t, v));
                }
                if user_has(t, v) {
                    let j = choose|j: int|
                        0 <= j < t.len() && t[j].entry.scope == AutostartScope::User
                            && #[trigger] file_name_view(t[j]) == Some(v);
                    if j < i {
                        assert(orig.take(i as int)[j] == t[j]);
                        assert(user_has(orig.take(i as int), v));
                        assert(among(before, v));
                        let q = choose|q: int| 0 <= q < before.len() && #[trigger] before[q]@ == v;
                        assert(user_names@[q] == before[q]);
                    } else {
                        assert(t[j] == orig[i as int]);
                        assert(user_names@[user_names@.len() - 1]@ == v);
                    }
                }
            }
        }
        i = i + 1;
    }
    assert(orig.take(n as int) =~= orig);
    assert(key_views(keys@) =~= orig.map_values(|f: FoundEntry| entry_key(f)));
    stable_sort_by_keys(&mut items, &mut keys);
    let ghost sorted = items@;
    assert(sorted == by_name(orig));
    let mut out: Vec<AutostartEntry> = Vec::new();
    for f in it: items.into_iter()
        invariant
            it.seq() == sorted,
            out@ == kept(orig, sorted.take(it.index() as int)),
            forall|v: Seq<u8>| #[trigger] among(user_names@, v) <==> user_has(orig, v),
    {
        let ghost k = it.index();
        let ghost pre = sorted.take(k as int);
        assert(sorted.take(k + 1).drop_last() =~= pre);
        assert(sorted.take(k + 1).last() == f);
        let dropped = match &f.file_name {
            Some(name) => f.entry.scope == AutostartScope::System && contains_bytes_vec(
                &user_names,
                name,
            ),
            None => false,
        };
        assert(dropped == overridden(orig, f));
        if !dropped {
            out.push(f.entry);
        }
    }
    assert(sorted.take(sorted.len() as int) =~= sorted);
    out
}

/// Whether `v` occurs among `seen`.
fn contains_bytes_vec(seen: &Vec<Vec<u8>>, v: &Vec<u8>) -> (r: bool)
    ensures
        r == among(seen@, v@),
{
    let n = seen.len();
    let mut i: usize = 0;
    while i < n
        invariant
            n == seen@.len(),
            i <= n,
            forall|q: int| 0 <= q < i ==> #[trigger] seen@[q]@ != v@,
        decreases n - i,
    {
        if compare_bytes(seen[i].as_slice(), v.as_slice()) == 0 {
            proof {
                crate::ordering::lemma_lex_zero(seen@[i as int]@, v@);
            }
            return true;
        }
        proof {
            crate::ordering::lemma_lex_zero(seen@[i as int]@, v@);
        }
        i = i + 1;
    }
    false
}

fn copy_bytes(v: &Vec<u8>) -> (r: Vec<u8>)
    ensures
        r@ == v@,
{
    let n = v.len();
    let mut r: Vec<u8> = Vec::new();
    let mut i: usize = 0;
    while i < n
        invariant
            n == v@.len(),
            i <= n,
            r@ == v@.take(i as int),
        decreases n - i,
    {
        r.push(v[i]);
        assert(v@.take(i + 1) =~= v@.take(i as int).push(v@[i as int]));
        i = i + 1;
    }
    assert(v@.take(n as int) =~= v@);
    r
}

/// With no overrides nothing is dropped: when no system entry of `s` has
/// the file name of a user entry of `all`, every entry is listed, in order.
pub proof fn lemma_no_override_keeps_all(all: Seq<FoundEntry>, s: Seq<FoundEntry>)
    requires
        forall|i: int| 0 <= i < s.len() ==> !overridden(all, #[trigger] s[i]),
    ensures
        kept(all, s) == s.map_values(|f: FoundEntry| f.entry),
    decreases s.len(),
{
    if s.len() > 0 {
        let front = s.drop_last();
        assert forall|i: int| 0 <= i < front.len() implies !overridden(all, #[trigger] front[i]) by {
            assert(front[i] == s[i]);
        }
        lemma_no_override_keeps_all(all, front);
        assert(!overridden(all, s[s.len() - 1]));
        assert(s.map_values(|f: FoundEntry| f.entry) =~= front.map_values(
            |f: FoundEntry| f.entry,
        ).push(s.last().entry));
    }
}

/// A user override always hides the system entry: a system entry whose file
/// name some user entry has contributes nothing to the list, wherever it
/// stands in the order.
pub proof fn lemma_override_hides_system_entry(all: Seq<FoundEntry>, s: Seq<FoundEntry>, k: int)
    requires
        0 <= k < s.len(),
        overridden(all, s[k]),
    ensures
        kept(all, s) == kept(all, s.remove(k)),
    decreases s.len(),
{
    let last = s.len() - 1;
    if k == last {
        assert(s.remove(k) =~= s.drop_last());
    } else {
        let front = s.drop_last();
        let r = s.remove(k);
        assert(r.drop_last() =~= front.remove(k));
        assert(front[k] == s[k]);
        lemma_override_hides_system_entry(all, front, k);
        assert(r.last() == s.last());
    }
}

/// A user copy hides the system entry of the same file name whatever either
/// entry says (enabled or not, any name): given a user entry of `all` and a
/// system entry of `s` with equal file names, the system entry adds nothing
/// to the list.
pub proof fn lemma_user_copy_hides_system_entry(
    all: Seq<FoundEntry>,
    s: Seq<FoundEntry>,
    j: int,
    k: int,
)
    requires
        0 <= j < all.len(),
        0 <= k < s.len(),
        all[j].entry.scope == AutostartScope::User,
        s[k].entry.scope == AutostartScope::System,
        all[j].file_name is Some,
        s[k].file_name is Some,
        all[j].file_name->0@ == s[k].file_name->0@,
    ensures
        kept(all, s) == kept(all, s.remove(k)),
        kept(all, s).len() < s.len(),
{
    assert(file_name_view(all[j]) == file_name_view(s[k]));
    assert(user_has(all, s[k].file_name->0@));
    lemma_override_hides_system_entry(all, s, k);
    lemma_kept_len(all, s.remove(k));
}

proof fn lemma_kept_len(all: Seq<FoundEntry>, s: Seq<FoundEntry>)
    ensures
        kept(all, s).len() <= s.len(),
    decreases s.len(),
{
    if s.len() > 0 {
        lemma_kept_len(all, s.drop_last());
    }
}

/// Every user entry is listed: the list holds the entry of each user-scope
/// entry of `s`.
pub proof fn lemma_user_entries_kept(all: Seq<FoundEntry>, s: Seq<FoundEntry>, k: int)
    requires
        0 <= k < s.len(),
        s[k].entry.scope == AutostartScope::User,
    ensures
        kept(all, s).contains(s[k].entry),
    decreases s.len(),
{
    let front = s.drop_last();
    if k == s.len() - 1 {
        assert(!overridden(all, s.last()));
        assert(kept(all, s) == kept(all, front).push(s.last().entry));
        assert(kept(all, s)[kept(all, front).len() as int] == s[k].entry);
    } else {
        assert(front[k] == s[k]);
        lemma_user_entries_kept(all, front, k);
        let i = choose|i: int| 0 <= i < kept(all, front).len() && kept(all, front)[i] == s[k].entry;
        if !overridden(all, s.last()) {
            assert(kept(all, s)[i] == kept(all, front)[i]);
        }
    }
}

/// Nothing overridden is listed: every listed entry is the entry of some
/// entry of `s` that no user entry overrides.
pub proof fn lemma_listed_entries_not_overridden(all: Seq<FoundEntry>, s: Seq<FoundEntry>)
    ensures
        forall|i: int|
            0 <= i < kept(all, s).len() ==> exists|k: int|
                0 <= k < s.len() && !overridden(all, s[k]) && #[trigger] kept(all, s)[i]
                    == s[k].entry,
    decreases s.len(),
{
    if s.len() > 0 {
        let front = s.drop_last();
        lemma_listed_entries_not_overridden(all, front);
        let kf = kept(all, front);
        assert forall|i: int| 0 <= i < kept(all, s).len() implies exists|k: int|
            0 <= k < s.len() && !overridden(all, s[k]) && #[trigger] kept(all, s)[i]
                == s[k].entry by {
            if i < kf.len() {
                let k = choose|k: int|
                    0 <= k < front.len() && !overridden(all, front[k]) && #[trigger] kf[i]
                        == front[k].entry;
                assert(s[k] == front[k]);
                assert(kept(all, s)[i] == kf[i]);
            } else {
                assert(kept(all, s)[i] == s[s.len() - 1].entry);
            }
        }
    }
}

} // verus!
