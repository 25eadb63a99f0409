//! Disk images of virtual machines: which engine runs an image, which
//! images are offered, and where images and their clones live.
use vstd::prelude::*;
use crate::env::Vm;
use crate::error::CoreError;
use crate::table::{Table, as_map, has_key, lookup, lemma_lookup_at, unique_keys};
use crate::text::{
    contains_char, contains_str, decimal, i64_to_decimal, is_prefix, lowercase, occurs_in,
    path_with_file_name, push_str, starts_with, to_lowercase, trim_end_char, trim_end_matches_char,
    trim_start_all, trim_start_matches, with_file_name,
};
use crate::types::VmKind;

verus! {

/// The prefix of the names of cloned images.
pub const CLONE_MARK: &'static str = "clone_";

/// The prefix that the root of the image volumes may be given with.
pub const ZVOL_PREFIX: &'static str = "/dev/zvol";

/// The engine that runs an image, chosen by the prefix of its name in lower case.
pub open spec fn kind_of_os(os: Seq<char>) -> Option<VmKind> {
    let low = lowercase(os);
    if is_prefix("qemu"@, low) {
        Some(VmKind::Qemu)
    } else if is_prefix("fire"@, low) {
        Some(VmKind::FireCracker)
    } else {
        None
    }
}

/// The engine that runs the image named `os`.
pub fn vm_kind(os: &str) -> (r: Result<VmKind, CoreError>)
    ensures
        match kind_of_os(os@) {
            Some(k) => r == Ok::<VmKind, CoreError>(k),
            None => r == Err::<VmKind, CoreError>(CoreError::InvalidOsName),
        },
{
    let os = to_lowercase(os);
    if starts_with(os.as_str(), "qemu") {
        return Ok(VmKind::Qemu);
    }
    if starts_with(os.as_str(), "fire") {
        return Ok(VmKind::FireCracker);
    }
    Err(CoreError::InvalidOsName)
}

/// An image is offered when an engine runs it and its name is not that of
/// a snapshot, a partition or a clone.
pub open spec fn os_image_offered(name: Seq<char>) -> bool {
    &&& kind_of_os(name) is Some
    &&& !(name.contains('@') || occurs_in("-part"@, name) || is_prefix(CLONE_MARK@, name))
}

/// The offered images among `entries` (file name, path), keyed by the name
/// in lower case; a later entry replaces an earlier one with the same key.
pub open spec fn os_images(entries: Seq<(Seq<char>, Seq<char>)>) -> Map<Seq<char>, Seq<char>>
    decreases entries.len(),
{
    if entries.len() == 0 {
        Map::empty()
    } else {
        let m = os_images(entries.drop_last());
        let e = entries.last();
        if os_image_offered(e.0) {
            m.insert(lowercase(e.0), e.1)
        } else {
            m
        }
    }
}

/// The entries of a list of pairs of strings, as text.
pub open spec fn pairs_view(v: Seq<(String, String)>) -> Seq<(Seq<char>, Seq<char>)> {
    v.map_values(|e: (String, String)| (e.0@, e.1@))
}

/// Storing a value under a key, in a sequence with unique keys, stores it in the map.
proof fn lemma_as_map_store<B>(before: Seq<(Seq<char>, B)>, after: Seq<(Seq<char>, B)>, k: Seq<char>, v: B)
    requires
        unique_keys(before),
        unique_keys(after),
        has_key(before, k) ==> exists|i: int|
            0 <= i < before.len() && #[trigger] before[i].0 == k && after == before.update(i, (k, v)),
        !has_key(before, k) ==> after == before.push((k, v)),
    ensures
        as_map(after) == as_map(before).insert(k, v),
{
    assert forall|x: Seq<char>| has_key(after, x) <==> (has_key(before, x) || x == k) by {
        if has_key(before, k) {
            let i = choose|i: int| 0 <= i < before.len() && #[trigger] before[i].0 == k && after == before.update(i, (k, v));
            if has_key(after, x) {
                let j = choose|j: int| 0 <= j < after.len() && #[trigger] after[j].0 == x;
                if j != i {
                    assert(before[j].0 == x);
                }
            }
            if has_key(before, x) {
                let j = choose|j: int| 0 <= j < before.len() && #[trigger] before[j].0 == x;
                if j != i {
                    assert(after[j].0 == x);
                } else {
                    assert(after[i].0 == x);
                }
            }
            if x == k {
                assert(after[i].0 == x);
            }
        } else {
            if has_key(after, x) {
                let j = choose|j: int| 0 <= j < after.len() && #[trigger] after[j].0 == x;
                if j < before.len() {
                    assert(before[j].0 == x);
                }
            }
            if has_key(before, x) {
                let j = choose|j: int| 0 <= j < before.len() && #[trigger] before[j].0 == x;
                assert(after[j].0 == x);
            }
            if x == k {
                assert(after[before.len() as int].0 == x);
            }
        }
    }
    assert forall|x: Seq<char>| has_key(after, x) implies lookup(after, x) == if x == k {
        Some(v)
    } else {
        lookup(before, x)
    } by {
        let j = choose|j: int| 0 <= j < after.len() && #[trigger] after[j].0 == x;
        lemma_lookup_at(after, j);
        if x != k {
            assert(has_key(before, x));
            let i = choose|i: int| 0 <= i < before.len() && #[trigger] before[i].0 == x;
            lemma_lookup_at(before, i);
            if has_key(before, k) {
                let p = choose|p: int| 0 <= p < before.len() && #[trigger] before[p].0 == k && after == before.update(p, (k, v));
                assert(after[i] == before[i]);
            } else {
                assert(after[i] == before[i]);
            }
            lemma_lookup_at(after, i);
        }
    }
    assert(as_map(after) =~= as_map(before).insert(k, v));
}

/// The entries of a table of strings, as text.
pub open spec fn text_entries(s: Seq<(Seq<char>, String)>) -> Seq<(Seq<char>, Seq<char>)> {
    s.map_values(|e: (Seq<char>, String)| (e.0, e.1@))
}

/// Taking the text of the values keeps the keys.
proof fn lemma_text_entries(s: Seq<(Seq<char>, String)>)
    ensures
        unique_keys(s) ==> unique_keys(text_entries(s)),
        forall|x: Seq<char>| has_key(text_entries(s), x) <==> has_key(s, x),
{
    let t = text_entries(s);
    assert forall|x: Seq<char>| has_key(t, x) <==> has_key(s, x) by {
        if has_key(t, x) {
            let i = choose|i: int| 0 <= i < t.len() && #[trigger] t[i].0 == x;
            assert(s[i].0 == x);
        }
        if has_key(s, x) {
            let i = choose|i: int| 0 <= i < s.len() && #[trigger] s[i].0 == x;
            assert(t[i].0 == x);
        }
    }
    if unique_keys(s) {
        assert forall|i: int, j: int| 0 <= i < j < t.len() implies #[trigger] t[i].0 != #[trigger] t[j].0 by {
            assert(t[i].0 == s[i].0 && t[j].0 == s[j].0);
        }
    }
}

/// The offered images among `entries` (file name, path of each entry of
/// the image directory), keyed by the file name in lower case.
pub fn select_os_images(entries: &Vec<(String, String)>) -> (r: Table<String, String>)
    ensures
        as_map(text_entries(r@)) == os_images(pairs_view(entries@)),
{
    let ghost es = pairs_view(entries@);
    let n = entries.len();
    let mut out: Table<String, String> = Table::new();
    let mut i: usize = 0;
    assert(as_map(text_entries(out@)) =~= Map::<Seq<char>, Seq<char>>::empty());
    while i < n
        invariant
            n == entries@.len(),
            es == pairs_view(entries@),
            i <= n,
            as_map(text_entries(out@)) == os_images(es.take(i as int)),
        decreases n - i,
    {
        let name = entries[i].0.as_str();
        assert(es[i as int] == (entries@[i as int].0@, entries@[i as int].1@));
        assert(es.take(i + 1).drop_last() =~= es.take(i as int));
        assert(es.take(i + 1).last() == es[i as int]);
        let ok = match vm_kind(name) {
            Ok(_) => !(contains_char(name, '@') || contains_str(name, "-part") || starts_with(
                name,
                CLONE_MARK,
            )),
            Err(_) => false,
        };
        if ok {
            let key = to_lowercase(name);
            let value = entries[i].1.clone();
            let ghost before = out@;
            let ghost k = key@;
            out.lemma_unique();
            out.insert(key, value);
            out.lemma_unique();
            proof {
                lemma_text_entries(before);
                lemma_text_entries(out@);
                let tb = text_entries(before);
                let ta = text_entries(out@);
                if has_key(before, k) {
                    let j = choose|j: int| 0 <= j < before.len() && #[trigger] before[j].0 == k && out@ == before.update(j, (k, value));
                    assert(tb[j].0 == k);
                    assert(ta =~= tb.update(j, (k, value@)));
                } else {
                    assert(ta =~= tb.push((k, value@)));
                }
                lemma_as_map_store(tb, ta, k, value@);
            }
        }
        i = i + 1;
    }
    assert(es.take(n as int) =~= es);
    out
}

/// The root of the image volumes: `path` without its leading copies of
/// `/dev/zvol` and its trailing slashes.
pub open spec fn img_root_of(path: Seq<char>) -> Seq<char> {
    trim_end_char(trim_start_all(path, ZVOL_PREFIX@), '/')
}

/// Normalizes the root of the image volumes.
pub fn normalize_img_root(path: &str) -> (r: String)
    ensures
        r@ == img_root_of(path@),
{
    let t = trim_start_matches(path, ZVOL_PREFIX);
    trim_end_matches_char(t.as_str(), '/')
}

/// After trimming leading copies, the prefix is gone.
proof fn lemma_trim_start_done(s: Seq<char>, p: Seq<char>)
    requires
        p.len() > 0,
    ensures
        !is_prefix(p, trim_start_all(s, p)),
        trim_start_all(trim_start_all(s, p), p) == trim_start_all(s, p),
    decreases s.len(),
{
    if is_prefix(p, s) {
        lemma_trim_start_done(s.skip(p.len() as int), p);
    }
}

/// Trimming the end leaves a prefix.
proof fn lemma_trim_end_prefix(s: Seq<char>, c: char)
    ensures
        trim_end_char(s, c).len() <= s.len(),
        trim_end_char(s, c) == s.take(trim_end_char(s, c).len() as int),
        trim_end_char(trim_end_char(s, c), c) == trim_end_char(s, c),
    decreases s.len(),
{
    if s.len() > 0 && s.last() == c {
        lemma_trim_end_prefix(s.drop_last(), c);
        let t = trim_end_char(s.drop_last(), c);
        assert(s.drop_last().take(t.len() as int) =~= s.take(t.len() as int));
    } else {
        assert(s.take(s.len() as int) =~= s);
    }
}

/// Normalizing a root that is already normalized changes nothing.
pub proof fn law_img_root_idempotent(path: Seq<char>)
    ensures
        img_root_of(img_root_of(path)) == img_root_of(path),
{
    let p = ZVOL_PREFIX@;
    assert(p.len() > 0) by {
        reveal_strlit("/dev/zvol");
    }
    let t = trim_start_all(path, p);
    let u = trim_end_char(t, '/');
    lemma_trim_start_done(path, p);
    lemma_trim_end_prefix(t, '/');
    assert(!is_prefix(p, u)) by {
        if is_prefix(p, u) {
            assert(u.take(p.len() as int) == p);
            assert(t.take(p.len() as int) =~= u.take(p.len() as int));
        }
    }
    assert(trim_start_all(u, p) == u);
}

/// The path of the clone of a machine's image: the image's file name
/// replaced by `clone_` and the machine id.
pub fn vm_img_path(vm: &Vm) -> (r: String)
    ensures
        r@ == path_with_file_name(vm.image_path@, CLONE_MARK@ + decimal(vm.id as int)),
{
    let mut name = CLONE_MARK.to_owned();
    let id = i64_to_decimal(vm.id as i64);
    push_str(&mut name, id.as_str());
    with_file_name(vm.image_path.as_str(), name.as_str())
}

} // verus!
