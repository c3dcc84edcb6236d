//! Deck paths: a deck name is a `::`-separated hierarchical path, and every
//! ancestor of a used deck must exist before notes can be created in it.

use vstd::prelude::*;

verus! {

/// The position of the first `::` separator at or after `from`, or -1.
pub open spec fn find_sep(s: Seq<char>, from: int) -> int
    decreases s.len() - from when 0 <= from <= s.len()
{
    if from + 2 > s.len() {
        -1
    } else if s[from] == ':' && s[from + 1] == ':' {
        from
    } else {
        find_sep(s, from + 1)
    }
}

pub proof fn lemma_find_sep_bounds(s: Seq<char>, from: int)
    requires
        0 <= from <= s.len(),
    ensures
        find_sep(s, from) == -1 || (from <= find_sep(s, from) && find_sep(s, from) + 2 <= s.len()),
    decreases s.len() - from,
{
    if from + 2 <= s.len() && !(s[from] == ':' && s[from + 1] == ':') {
        lemma_find_sep_bounds(s, from + 1);
    }
}

/// The prefixes of the deck path that end just before each separator found
/// from `from` on, and the whole path last.
pub open spec fn spec_deck_prefixes_from(s: Seq<char>, from: int) -> Seq<Seq<char>>
    decreases s.len() - from when 0 <= from <= s.len() via check_deck_prefixes_decreases
{
    let i = find_sep(s, from);
    if i == -1 {
        seq![s]
    } else {
        seq![s.subrange(0, i)] + spec_deck_prefixes_from(s, i + 2)
    }
}

#[via_fn]
proof fn check_deck_prefixes_decreases(s: Seq<char>, from: int) {
    lemma_find_sep_bounds(s, from);
}

/// Decomposing `A::B::C` yields `A`, `A::B`, `A::B::C`: one prefix per
/// separator, the full path last.
pub open spec fn spec_deck_prefixes(s: Seq<char>) -> Seq<Seq<char>> {
    spec_deck_prefixes_from(s, 0)
}

/// The decomposition is never empty and always ends with the full path:
/// decomposing the last element again therefore reproduces the same list.
pub proof fn lemma_deck_prefixes_last(s: Seq<char>, from: int)
    requires
        0 <= from <= s.len(),
    ensures
        spec_deck_prefixes_from(s, from).len() >= 1,
        spec_deck_prefixes_from(s, from).last() == s,
    decreases s.len() - from,
{
    lemma_find_sep_bounds(s, from);
    let i = find_sep(s, from);
    if i != -1 {
        lemma_deck_prefixes_last(s, i + 2);
    }
}

/// Prefix-completeness: every element of the decomposition is a prefix of
/// the full path.
pub proof fn lemma_deck_prefixes_are_prefixes(s: Seq<char>, from: int, k: int)
    requires
        0 <= from <= s.len(),
        0 <= k < spec_deck_prefixes_from(s, from).len(),
    ensures
        spec_deck_prefixes_from(s, from)[k].len() <= s.len(),
        spec_deck_prefixes_from(s, from)[k] == s.subrange(
            0,
            spec_deck_prefixes_from(s, from)[k].len() as int,
        ),
    decreases s.len() - from,
{
    lemma_find_sep_bounds(s, from);
    let i = find_sep(s, from);
    if i == -1 {
        assert(s.subrange(0, s.len() as int) =~= s);
    } else {
        if k > 0 {
            lemma_deck_prefixes_are_prefixes(s, i + 2, k - 1);
        }
    }
}

/// A path without separators decomposes to itself alone: decomposition is
/// idempotent on every single-segment name, and on the last element of any
/// decomposition, which is the full path.
pub proof fn lemma_deck_prefixes_atomic(s: Seq<char>)
    requires
        find_sep(s, 0) == -1,
    ensures
        spec_deck_prefixes(s) == seq![s],
{
}

/// A prefix keeps exactly the separators of the full path that fit inside
/// it.
proof fn lemma_find_sep_prefix(s: Seq<char>, cut: int, from: int)
    requires
        0 <= from <= cut <= s.len(),
    ensures
        ({
            let fs = find_sep(s, from);
            let fp = find_sep(s.subrange(0, cut), from);
            if fs != -1 && fs + 2 <= cut {
                fp == fs
            } else {
                fp == -1
            }
        }),
    decreases cut - from,
{
    lemma_find_sep_bounds(s, from);
    if from + 2 <= cut {
        if !(s[from] == ':' && s[from + 1] == ':') {
            lemma_find_sep_prefix(s, cut, from + 1);
        }
    }
}

/// Every element of a decomposition reaches at least to `from`.
proof fn lemma_deck_prefixes_min_len(s: Seq<char>, from: int, k: int)
    requires
        0 <= from <= s.len(),
        0 <= k < spec_deck_prefixes_from(s, from).len(),
    ensures
        spec_deck_prefixes_from(s, from)[k].len() >= from,
    decreases s.len() - from,
{
    lemma_find_sep_bounds(s, from);
    let i = find_sep(s, from);
    if i != -1 && k > 0 {
        lemma_deck_prefixes_min_len(s, i + 2, k - 1);
    }
}

/// Idempotence, prefix by prefix: decomposing any element of a
/// decomposition yields exactly the elements up to and including it.
pub proof fn lemma_deck_prefixes_idempotent(s: Seq<char>, from: int, k: int)
    requires
        0 <= from <= s.len(),
        0 <= k < spec_deck_prefixes_from(s, from).len(),
    ensures
        spec_deck_prefixes_from(spec_deck_prefixes_from(s, from)[k], from)
            == spec_deck_prefixes_from(s, from).take(k + 1),
    decreases s.len() - from,
{
    lemma_find_sep_bounds(s, from);
    let list = spec_deck_prefixes_from(s, from);
    let e = list[k];
    let f = find_sep(s, from);
    if f == -1 {
        assert(e == s);
        assert(list.take(k + 1) =~= seq![s]);
    } else {
        let rest = spec_deck_prefixes_from(s, f + 2);
        if k == 0 {
            assert(e =~= s.subrange(0, f));
            lemma_find_sep_prefix(s, f, from);
            assert(find_sep(e, from) == -1);
            assert(spec_deck_prefixes_from(e, from) == seq![e]);
            assert(list.take(1) =~= seq![e]);
        } else {
            lemma_deck_prefixes_idempotent(s, f + 2, k - 1);
            lemma_deck_prefixes_min_len(s, f + 2, k - 1);
            lemma_deck_prefixes_are_prefixes(s, f + 2, k - 1);
            let cut = rest[k - 1].len() as int;
            assert(e == rest[k - 1]);
            assert(e == s.subrange(0, cut));
            assert(f + 2 <= cut <= s.len());
            lemma_find_sep_prefix(s, cut, from);
            assert(find_sep(e, from) == f);
            assert(e.subrange(0, f) =~= s.subrange(0, f));
            assert(spec_deck_prefixes_from(e, from) == seq![s.subrange(0, f)]
                + spec_deck_prefixes_from(e, f + 2));
            assert(spec_deck_prefixes_from(e, f + 2) == rest.take(k));
            assert((seq![s.subrange(0, f)] + rest.take(k)) =~= list.take(k + 1));
        }
    }
}

fn find_sep_exec(s: &str, from: usize) -> (r: Option<usize>)
    requires
        from <= s@.len(),
        s@.len() + 2 <= usize::MAX,
    ensures
        match r {
            Some(i) => i == find_sep(s@, from as int),
            None => find_sep(s@, from as int) == -1,
        },
{
    let len = s.unicode_len();
    let mut i = from;
    while i + 2 <= len
        invariant
            from <= i <= len,
            len == s@.len(),
            len + 2 <= usize::MAX,
            find_sep(s@, from as int) == find_sep(s@, i as int),
        decreases len - i,
    {
        if s.get_char(i) == ':' && s.get_char(i + 1) == ':' {
            return Some(i);
        }
        i += 1;
    }
    None
}

fn deck_prefixes_rec(s: &str, from: usize, out: &mut Vec<String>)
    requires
        from <= s@.len(),
        s@.len() + 2 <= usize::MAX,
    ensures
        final(out)@.map_values(|t: String| t@) == old(out)@.map_values(|t: String| t@)
            + spec_deck_prefixes_from(s@, from as int),
    decreases s@.len() - from,
{
    let ghost out0 = out@;
    match find_sep_exec(s, from) {
        None => {
            out.push(s.to_owned());
            proof {
                assert(out@.map_values(|t: String| t@) =~= out0.map_values(|t: String| t@)
                    + spec_deck_prefixes_from(s@, from as int));
            }
        },
        Some(i) => {
            proof {
                lemma_find_sep_bounds(s@, from as int);
            }
            out.push(s.substring_char(0, i).to_owned());
            deck_prefixes_rec(s, i + 2, out);
            proof {
                assert(out@.map_values(|t: String| t@) =~= out0.map_values(|t: String| t@)
                    + spec_deck_prefixes_from(s@, from as int));
            }
        },
    }
}

/// Decomposes a deck path into all its ancestors and itself, in order.
pub fn deck_prefixes(deck: &str) -> (r: Vec<String>)
    requires
        deck@.len() + 2 <= usize::MAX,
    ensures
        r@.map_values(|t: String| t@) == spec_deck_prefixes(deck@),
{
    let mut out: Vec<String> = Vec::new();
    deck_prefixes_rec(deck, 0, &mut out);
    proof {
        assert(Seq::<Seq<char>>::empty() + spec_deck_prefixes(deck@) =~= spec_deck_prefixes(
            deck@,
        ));
        assert(out@.map_values(|t: String| t@) =~= spec_deck_prefixes(deck@));
    }
    out
}

} // verus!
