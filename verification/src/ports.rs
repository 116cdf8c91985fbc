//! The serial devices to try for a requested port, in the order to try
//! them: the requested path and its `tty.`/`cu.` pair, then the other USB
//! serial devices of the same kind found beside it, `cu.` ones first.
use vstd::prelude::*;
use crate::interactive::{
    file_name, paired_name, paired_tty_cu_path, path_file_name, push_unique,
    requested_file_name_starts_with, usb_fragment, usbmodem_fragment, with_file_name,
};
use crate::text::{has_prefix, contains_chars, str_chars, str_contains, str_starts_with};

verus! {

broadcast use vstd::seq_lib::group_to_multiset_ensures;

/// The texts of a sequence of strings.
pub open spec fn paths_view(v: Seq<String>) -> Seq<Seq<char>> {
    v.map_values(|s: String| s@)
}

/// `s` with `p` appended unless it is already there.
pub open spec fn with_unique(s: Seq<Seq<char>>, p: Seq<char>) -> Seq<Seq<char>> {
    if s.contains(p) { s } else { s.push(p) }
}

/// `s` with each of `ps` appended in turn unless already there.
pub open spec fn with_all(s: Seq<Seq<char>>, ps: Seq<Seq<char>>) -> Seq<Seq<char>>
    decreases ps.len(),
{
    if ps.len() == 0 {
        s
    } else {
        with_unique(with_all(s, ps.drop_last()), ps.last())
    }
}

/// The path of the paired `tty.`/`cu.` device, if the file name has one.
pub open spec fn paired_path(path: Seq<char>) -> Option<Seq<char>> {
    match file_name(path) {
        Some(n) => match paired_name(n) {
            Some(p) => Some(with_file_name(path, p)),
            None => None,
        },
        None => None,
    }
}

/// The requested path and its pair: the `cu.` device first when a `tty.`
/// one was asked for, else the requested one first.
pub open spec fn first_candidates(requested: Seq<char>) -> Seq<Seq<char>> {
    let asks_tty = file_name(requested) is Some && has_prefix(file_name(requested)->Some_0, "tty."@);
    if asks_tty {
        match paired_path(requested) {
            Some(p) => with_unique(with_unique(Seq::empty(), p), requested),
            None => with_unique(Seq::empty(), requested),
        }
    } else {
        let s = with_unique(Seq::empty(), requested);
        match paired_path(requested) {
            Some(p) => with_unique(s, p),
            None => s,
        }
    }
}

/// Whether a listed path is a device whose file name holds `fragment`
/// and begins with `prefix`.
pub open spec fn device_match(path: Seq<char>, fragment: Seq<char>, prefix: Seq<char>) -> bool {
    file_name(path) matches Some(n) && contains_chars(n, fragment) && has_prefix(n, prefix)
}

/// The listed paths that are such devices, in listing order.
pub open spec fn device_matches(listing: Seq<Seq<char>>, fragment: Seq<char>, prefix: Seq<char>) -> Seq<Seq<char>>
    decreases listing.len(),
{
    if listing.len() == 0 {
        Seq::empty()
    } else {
        let rest = device_matches(listing.drop_last(), fragment, prefix);
        if device_match(listing.last(), fragment, prefix) { rest.push(listing.last()) } else { rest }
    }
}

// ---------------------------------------------------------------------
// Ordering paths

/// Comparing from index `i` on, character by character, a prefix first.
pub open spec fn lex_le_from(a: Seq<char>, b: Seq<char>, i: int) -> bool
    decreases a.len() - i,
{
    if i < 0 || i >= a.len() {
        true
    } else if i >= b.len() {
        false
    } else if (a[i] as u32) < (b[i] as u32) {
        true
    } else if (a[i] as u32) > (b[i] as u32) {
        false
    } else {
        lex_le_from(a, b, i + 1)
    }
}

/// The order of paths: character by character, a prefix first.
pub open spec fn lex_le(a: Seq<char>, b: Seq<char>) -> bool {
    lex_le_from(a, b, 0)
}

pub open spec fn sorted_paths(s: Seq<Seq<char>>) -> bool {
    forall|i: int, j: int| 0 <= i < j < s.len() ==> lex_le(#[trigger] s[i], #[trigger] s[j])
}

proof fn lemma_lex_total(a: Seq<char>, b: Seq<char>, i: int)
    requires
        i >= 0,
    ensures
        lex_le_from(a, b, i) || lex_le_from(b, a, i),
    decreases a.len() - i,
{
    if i < a.len() && i < b.len() && (a[i] as u32) == (b[i] as u32) {
        lemma_lex_total(a, b, i + 1);
    }
}

proof fn lemma_lex_trans(a: Seq<char>, b: Seq<char>, c: Seq<char>, i: int)
    requires
        i >= 0,
        lex_le_from(a, b, i),
        lex_le_from(b, c, i),
    ensures
        lex_le_from(a, c, i),
    decreases a.len() - i,
{
    if i < a.len() && i < b.len() && i < c.len() && (a[i] as u32) == (b[i] as u32) && (b[i] as u32) == (c[i] as u32) {
        lemma_lex_trans(a, b, c, i + 1);
    }
}

fn chars_lex_le(a: &[char], b: &[char]) -> (r: bool)
    ensures
        r == lex_le(a@, b@),
{
    let mut i: usize = 0;
    while i < a.len()
        invariant
            i <= a@.len(),
            lex_le(a@, b@) == lex_le_from(a@, b@, i as int),
        decreases a@.len() - i,
    {
        if i >= b.len() {
            return false;
        }
        let x = a[i] as u32;
        let y = b[i] as u32;
        if x < y {
            return true;
        }
        if x > y {
            return false;
        }
        i = i + 1;
    }
    true
}

/// Puts `path` into its place in a sorted sequence.
fn insert_sorted(out: &mut Vec<String>, path: String)
    requires
        sorted_paths(paths_view(old(out)@)),
    ensures
        sorted_paths(paths_view(final(out)@)),
        paths_view(final(out)@).to_multiset() == paths_view(old(out)@).to_multiset().insert(path@),
{
    let ghost v = paths_view(out@);
    let pc = str_chars(path.as_str());
    let mut k: usize = 0;
    let mut found = false;
    while !found && k < out.len()
        invariant
            k <= out@.len(),
            v == paths_view(out@),
            pc@ == path@,
            forall|j: int| 0 <= j < k ==> lex_le(#[trigger] v[j], path@),
            found ==> k < out@.len() && !lex_le(v[k as int], path@),
        decreases out@.len() - k + (if found { 0int } else { 1int }),
    {
        let oc = str_chars(out[k].as_str());
        assert(v[k as int] == out@[k as int]@);
        if !chars_lex_le(oc.as_slice(), pc.as_slice()) {
            found = true;
        } else {
            k = k + 1;
        }
    }
    proof {
        if k < out@.len() {
            lemma_lex_total(v[k as int], path@, 0);
            assert forall|j: int| k <= j < v.len() implies lex_le(path@, #[trigger] v[j]) by {
                if j > k {
                    lemma_lex_trans(path@, v[k as int], v[j], 0);
                }
            }
        }
    }
    out.insert(k, path);
    proof {
        let w = paths_view(out@);
        assert(w =~= v.insert(k as int, path@));
        vstd::seq_lib::to_multiset_insert(v, k as int, path@);
        assert forall|i: int, j: int| 0 <= i < j < w.len() implies lex_le(#[trigger] w[i], #[trigger] w[j]) by {
            if j < k {
            } else if i < k && j == k {
            } else if i < k && j > k {
                if k < v.len() {
                    lemma_lex_trans(v[i], path@, v[j - 1], 0);
                } else {
                    assert(false);
                }
            } else if i == k {
            } else {
            }
        }
    }
}

/// The listed devices of one kind, sorted.
fn sorted_matches(listing: &[String], fragment: &str, prefix: &str) -> (r: Vec<String>)
    ensures
        sorted_paths(paths_view(r@)),
        paths_view(r@).to_multiset() == device_matches(paths_view(listing@), fragment@, prefix@).to_multiset(),
{
    let ghost lv = paths_view(listing@);
    let mut out: Vec<String> = Vec::new();
    let mut i: usize = 0;
    assert(paths_view(out@) =~= Seq::<Seq<char>>::empty());
    while i < listing.len()
        invariant
            i <= listing@.len(),
            lv == paths_view(listing@),
            sorted_paths(paths_view(out@)),
            paths_view(out@).to_multiset() == device_matches(lv.subrange(0, i as int), fragment@, prefix@).to_multiset(),
        decreases listing@.len() - i,
    {
        let path = &listing[i];
        let ghost sub = lv.subrange(0, i as int + 1);
        assert(sub.drop_last() =~= lv.subrange(0, i as int));
        assert(sub.last() == path@);
        let matched = match path_file_name(path.as_str()) {
            Some(name) => str_contains(name.as_str(), fragment) && str_starts_with(name.as_str(), prefix),
            None => false,
        };
        assert(matched == device_match(path@, fragment@, prefix@));
        if matched {
            let ghost before = device_matches(lv.subrange(0, i as int), fragment@, prefix@);
            insert_sorted(&mut out, path.clone());
            proof {
                assert(device_matches(sub, fragment@, prefix@) == before.push(path@));
                vstd::seq_lib::to_multiset_build(before, path@);
            }
        }
        i = i + 1;
    }
    assert(lv.subrange(0, i as int) =~= lv);
    out
}

/// Appends each of `paths` unless already present.
fn push_all_unique(candidates: &mut Vec<String>, paths: &Vec<String>)
    ensures
        paths_view(final(candidates)@) == with_all(paths_view(old(candidates)@), paths_view(paths@)),
{
    let ghost pv = paths_view(paths@);
    let mut j: usize = 0;
    assert(pv.subrange(0, 0) =~= Seq::<Seq<char>>::empty());
    while j < paths.len()
        invariant
            j <= paths@.len(),
            pv == paths_view(paths@),
            paths_view(candidates@) == with_all(paths_view(old(candidates)@), pv.subrange(0, j as int)),
        decreases paths@.len() - j,
    {
        let ghost sub = pv.subrange(0, j as int + 1);
        assert(sub.drop_last() =~= pv.subrange(0, j as int));
        push_one(candidates, paths[j].clone());
        j = j + 1;
    }
    assert(pv.subrange(0, j as int) =~= pv);
}

fn push_one(candidates: &mut Vec<String>, path: String)
    ensures
        paths_view(final(candidates)@) == with_unique(paths_view(old(candidates)@), path@),
{
    let ghost v = paths_view(candidates@);
    let ghost p = path@;
    push_unique(candidates, path);
    proof {
        if v.contains(p) {
            let i = choose|i: int| 0 <= i < v.len() && v[i] == p;
            assert(old(candidates)@[i]@ == p);
        } else {
            assert forall|i: int| 0 <= i < old(candidates)@.len() implies old(candidates)@[i]@ != p by {
                assert(v[i] == old(candidates)@[i]@);
            }
            assert(paths_view(candidates@) =~= v.push(p));
        }
    }
}

/// The serial devices to try for `requested`, in order: the requested path
/// and its `tty.`/`cu.` pair (the `cu.` device first when a `tty.` one was
/// asked for), then, when the file name names a USB serial device, the
/// listed devices of the same kind, the `cu.` ones and then the `tty.`
/// ones, each group in path order; no path twice. `listing` holds the
/// paths found in the requested path's directory, `None` when it could not
/// be listed.
pub fn port_candidates(requested: &str, listing: Option<&[String]>) -> (r: Vec<String>)
    ensures
        match (usb_fragment(requested@), listing) {
            (Some(f), Some(l)) => exists|cu: Seq<Seq<char>>, tty: Seq<Seq<char>>| {
                &&& sorted_paths(cu)
                &&& cu.to_multiset() == device_matches(paths_view(l@), f, "cu."@).to_multiset()
                &&& sorted_paths(tty)
                &&& tty.to_multiset() == device_matches(paths_view(l@), f, "tty."@).to_multiset()
                &&& paths_view(r@) == with_all(with_all(first_candidates(requested@), cu), tty)
            },
            _ => paths_view(r@) == first_candidates(requested@),
        },
{
    let mut candidates: Vec<String> = Vec::new();
    let req = requested.to_owned();
    assert(paths_view(candidates@) =~= Seq::<Seq<char>>::empty());
    if requested_file_name_starts_with(requested, "tty.") {
        if let Some(pair) = paired_tty_cu_path(requested) {
            push_one(&mut candidates, pair);
        }
        push_one(&mut candidates, req);
    } else {
        push_one(&mut candidates, req);
        if let Some(pair) = paired_tty_cu_path(requested) {
            push_one(&mut candidates, pair);
        }
    }
    assert(paths_view(candidates@) == first_candidates(requested@));
    match (usbmodem_fragment(requested), listing) {
        (Some(fragment), Some(entries)) => {
            let cu = sorted_matches(entries, fragment, "cu.");
            push_all_unique(&mut candidates, &cu);
            let tty = sorted_matches(entries, fragment, "tty.");
            push_all_unique(&mut candidates, &tty);
            assert(paths_view(candidates@) == with_all(with_all(first_candidates(requested@), paths_view(cu@)), paths_view(tty@)));
            candidates
        },
        _ => candidates,
    }
}

} // verus!
