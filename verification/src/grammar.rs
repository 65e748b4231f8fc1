//! The attribute grammar of the wire format: a `;`-delimited sequence of
//! `key=value` segments with optional surrounding whitespace. The
//! tokenizer is deliberately lenient: segments without a `=`, or with an
//! empty key or value, are dropped, not reported.

use vstd::prelude::*;
use vstd::string::{StrSliceExecFns, StringExecFns};
use crate::strutil::{
    find_in, find_char, is_ws, lemma_end_non_ws_is, lemma_find_in_is, lemma_first_non_ws_is,
    pairs_view, split_on, str_eq, trim, ws_char,
};

verus! {

/// The key/value pair one raw segment contributes: trim it, cut at the
/// first `=`, and keep the parts only if both are non-empty.
pub open spec fn seg_pair(s: Seq<char>) -> Option<(Seq<char>, Seq<char>)> {
    let t = trim(s);
    let e = find_in(t, '=') as int;
    if e == t.len() {
        None
    } else {
        let k = t.take(e);
        let v = t.skip(e + 1);
        if k.len() > 0 && v.len() > 0 {
            Some((k, v))
        } else {
            None
        }
    }
}

/// The pairs that a sequence of raw segments contributes, in order.
pub open spec fn pairs_of(segs: Seq<Seq<char>>) -> Seq<(Seq<char>, Seq<char>)>
    decreases segs.len(),
{
    if segs.len() == 0 {
        Seq::empty()
    } else {
        (match seg_pair(segs[0]) {
            Some(p) => seq![p],
            None => Seq::empty(),
        }) + pairs_of(segs.drop_first())
    }
}

/// The ordered key/value pairs of a raw attribute string.
pub open spec fn tokens(s: Seq<char>) -> Seq<(Seq<char>, Seq<char>)> {
    pairs_of(split_on(s, ';'))
}

/// The value of the last pair carrying key `k`: on repeated keys the
/// later occurrence wins.
pub open spec fn lookup_last(ps: Seq<(Seq<char>, Seq<char>)>, k: Seq<char>) -> Option<Seq<char>>
    decreases ps.len(),
{
    if ps.len() == 0 {
        None
    } else if ps.last().0 == k {
        Some(ps.last().1)
    } else {
        lookup_last(ps.drop_last(), k)
    }
}

/// The attribute keys this implementation understands.
pub open spec fn reserved_key(k: Seq<char>) -> bool {
    k == "addr"@ || k == "type"@ || k == "prefer-encrypt"@ || k == "keydata"@
}

/// An ignorable extension key, marked by a leading underscore.
pub open spec fn ext_key(k: Seq<char>) -> bool {
    k.len() > 0 && k[0] == '_'
}

/// Whether some pair carries a critical key: one that is neither
/// understood nor a safely ignorable extension.
pub open spec fn has_unknown_critical(ps: Seq<(Seq<char>, Seq<char>)>) -> bool {
    exists|i: int|
        0 <= i < ps.len() && !reserved_key(#[trigger] ps[i].0) && !ext_key(ps[i].0)
}

pub proof fn lemma_pairs_of_snoc(segs: Seq<Seq<char>>, x: Seq<char>)
    ensures
        pairs_of(segs.push(x)) == pairs_of(segs) + (match seg_pair(x) {
            Some(p) => seq![p],
            None => Seq::empty(),
        }),
    decreases segs.len(),
{
    let tail = (match seg_pair(x) {
        Some(p) => seq![p],
        None => Seq::<(Seq<char>, Seq<char>)>::empty(),
    });
    if segs.len() == 0 {
        assert(segs.push(x)[0] == x);
        assert(segs.push(x).drop_first() =~= Seq::<Seq<char>>::empty());
        assert(tail + pairs_of(segs.push(x).drop_first()) =~= tail);
        assert(pairs_of(segs) + tail =~= tail);
    } else {
        assert(segs.push(x)[0] == segs[0]);
        assert(segs.push(x).drop_first() =~= segs.drop_first().push(x));
        lemma_pairs_of_snoc(segs.drop_first(), x);
        let head = (match seg_pair(segs[0]) {
            Some(p) => seq![p],
            None => Seq::<(Seq<char>, Seq<char>)>::empty(),
        });
        assert(pairs_of(segs.push(x)) == head + (pairs_of(segs.drop_first()) + tail));
        assert(head + (pairs_of(segs.drop_first()) + tail) =~= (head + pairs_of(
            segs.drop_first(),
        )) + tail);
    }
}

/// Removing a keyless last pair does not change a lookup.
pub proof fn lemma_lookup_last_snoc(
    ps: Seq<(Seq<char>, Seq<char>)>,
    x: (Seq<char>, Seq<char>),
    k: Seq<char>,
)
    ensures
        lookup_last(ps.push(x), k) == if x.0 == k {
            Some(x.1)
        } else {
            lookup_last(ps, k)
        },
{
    assert(ps.push(x).last() == x);
    assert(ps.push(x).drop_last() =~= ps);
}

/// The trimmed middle of one raw segment, as executable code.
fn trim_str<'a>(seg: &'a str) -> (t: &'a str)
    ensures
        t@ == trim(seg@),
{
    let n = seg.unicode_len();
    let mut a: usize = 0;
    while a < n && ws_char(seg.get_char(a))
        invariant
            0 <= a <= n,
            n == seg@.len(),
            forall|j: int| 0 <= j < a ==> is_ws(seg@[j]),
        decreases n - a,
    {
        a = a + 1;
    }
    proof {
        lemma_first_non_ws_is(seg@, a as int);
    }
    if a == n {
        let empty = seg.substring_char(0, 0);
        proof {
            assert(empty@ =~= trim(seg@));
        }
        return empty;
    }
    let mut b: usize = n;
    while b > a && ws_char(seg.get_char(b - 1))
        invariant
            a < n,
            a < b <= n || b == n,
            n == seg@.len(),
            !is_ws(seg@[a as int]),
            forall|j: int| b <= j < n ==> is_ws(seg@[j]),
        decreases b,
    {
        proof {
            if b - 1 == a {
                assert(is_ws(seg@[a as int]));
            }
        }
        b = b - 1;
    }
    proof {
        lemma_end_non_ws_is(seg@, b as int);
    }
    seg.substring_char(a, b)
}

/// The pair one raw segment contributes, as executable code.
fn segment_pair(seg: &str) -> (r: Option<(String, String)>)
    ensures
        match r {
            Some(p) => seg_pair(seg@) == Some((p.0@, p.1@)),
            None => seg_pair(seg@) is None,
        },
{
    let t = trim_str(seg);
    let n = t.unicode_len();
    let e = find_char(t, 0, '=');
    proof {
        lemma_find_in_is(t@, '=', e as int);
    }
    if e == n {
        return None;
    }
    if e == 0 || e + 1 == n {
        proof {
            if e == 0 {
                assert(t@.take(0).len() == 0);
            } else {
                assert(t@.skip(e as int + 1).len() == 0);
            }
        }
        return None;
    }
    let k = t.substring_char(0, e);
    let v = t.substring_char(e + 1, n);
    proof {
        assert(k@ =~= t@.take(e as int));
        assert(v@ =~= t@.skip(e as int + 1));
    }
    Some((String::from_str(k), String::from_str(v)))
}

/// Tokenizes a raw attribute string into its ordered key/value pairs.
pub fn tokenize(s: &str) -> (pairs: Vec<(String, String)>)
    ensures
        pairs_view(pairs@) == tokens(s@),
{
    let n = s.unicode_len();
    let mut pairs: Vec<(String, String)> = Vec::new();
    let mut pos: usize = 0;
    let mut finished = false;
    let ghost mut done: Seq<Seq<char>> = Seq::empty();
    proof {
        assert(s@.subrange(0, n as int) =~= s@);
        assert(pairs_view(pairs@) =~= pairs_of(done));
        assert(done + split_on(s@.subrange(pos as int, n as int), ';') =~= split_on(s@, ';'));
    }
    while !finished
        invariant
            0 <= pos <= n,
            n == s@.len(),
            pairs_view(pairs@) == pairs_of(done),
            !finished ==> split_on(s@, ';') == done + split_on(
                s@.subrange(pos as int, n as int),
                ';',
            ),
            finished ==> split_on(s@, ';') == done,
        decreases n - pos, (if finished { 0int } else { 1int }),
    {
        let end = find_char(s, pos, ';');
        let seg = s.substring_char(pos, end);
        let ghost rem = s@.subrange(pos as int, n as int);
        proof {
            assert forall|j: int| 0 <= j < end - pos implies rem[j] != ';' by {
                assert(s@[pos + j] != ';');
            }
            if end < n {
                assert(rem[end - pos] == s@[end as int]);
            }
            lemma_find_in_is(rem, ';', end as int - pos as int);
            if end < n {
                assert(rem.subrange(0, end as int - pos as int) =~= seg@);
                assert(rem.subrange(end as int - pos as int + 1, rem.len() as int) =~= s@.subrange(
                    end as int + 1,
                    n as int,
                ));
                assert(split_on(rem, ';') == seq![seg@] + split_on(
                    s@.subrange(end as int + 1, n as int),
                    ';',
                ));
            } else {
                assert(rem =~= seg@);
                assert(split_on(rem, ';') == seq![rem]);
            }
        }
        let ghost pairs_before = pairs_view(pairs@);
        match segment_pair(seg) {
            Some(p) => {
                pairs.push(p);
                proof {
                    assert(pairs_view(pairs@) =~= pairs_before.push((p.0@, p.1@)));
                }
            },
            None => {},
        }
        proof {
            lemma_pairs_of_snoc(done, seg@);
            let piece = (match seg_pair(seg@) {
                Some(p) => seq![p],
                None => Seq::<(Seq<char>, Seq<char>)>::empty(),
            });
            assert(pairs_view(pairs@) =~= pairs_of(done) + piece);
            done = done.push(seg@);
        }
        if end == n {
            proof {
                assert(done.drop_last() + seq![seg@] =~= done);
                assert(split_on(s@, ';') =~= done);
            }
            finished = true;
        } else {
            proof {
                assert(done.drop_last() + seq![seg@] =~= done);
                assert((done.drop_last() + seq![seg@]) + split_on(
                    s@.subrange(end as int + 1, n as int),
                    ';',
                ) =~= done + split_on(s@.subrange(end as int + 1, n as int), ';'));
                assert(split_on(s@, ';') =~= done + split_on(
                    s@.subrange(end as int + 1, n as int),
                    ';',
                ));
            }
            pos = end + 1;
        }
    }
    proof {
        assert(pairs_view(pairs@) =~= tokens(s@));
    }
    pairs
}

/// Looks up the last binding of `key` among the tokenized pairs.
pub fn lookup_last_vec(pairs: &Vec<(String, String)>, key: &str) -> (r: Option<String>)
    ensures
        match r {
            Some(v) => lookup_last(pairs_view(pairs@), key@) == Some(v@),
            None => lookup_last(pairs_view(pairs@), key@) is None,
        },
{
    let n = pairs.len();
    let mut i: usize = n;
    proof {
        assert(pairs_view(pairs@).take(n as int) =~= pairs_view(pairs@));
    }
    while i > 0
        invariant
            0 <= i <= n,
            n == pairs@.len(),
            lookup_last(pairs_view(pairs@), key@) == lookup_last(
                pairs_view(pairs@).take(i as int),
                key@,
            ),
        decreases i,
    {
        let ghost pv = pairs_view(pairs@);
        proof {
            assert(pv.take(i as int).last() == pv[i - 1]);
            assert(pv.take(i as int).drop_last() =~= pv.take(i as int - 1));
        }
        if str_eq(pairs[i - 1].0.as_str(), key) {
            return Some(pairs[i - 1].1.clone());
        }
        i = i - 1;
    }
    proof {
        assert(pairs_view(pairs@).take(0) =~= Seq::<(Seq<char>, Seq<char>)>::empty());
    }
    None
}

/// Whether some pair carries an unknown critical key.
pub fn scan_critical(pairs: &Vec<(String, String)>) -> (r: bool)
    ensures
        r == has_unknown_critical(pairs_view(pairs@)),
{
    let n = pairs.len();
    let mut i: usize = 0;
    while i < n
        invariant
            0 <= i <= n,
            n == pairs@.len(),
            forall|j: int|
                0 <= j < i ==> (reserved_key(#[trigger] pairs_view(pairs@)[j].0) || ext_key(
                    pairs_view(pairs@)[j].0,
                )),
        decreases n - i,
    {
        let k = pairs[i].0.as_str();
        let reserved = str_eq(k, "addr") || str_eq(k, "type") || str_eq(k, "prefer-encrypt")
            || str_eq(k, "keydata");
        let ext = k.unicode_len() > 0 && k.get_char(0) == '_';
        if !reserved && !ext {
            proof {
                assert(!reserved_key(pairs_view(pairs@)[i as int].0) && !ext_key(
                    pairs_view(pairs@)[i as int].0,
                ));
            }
            return true;
        }
        i = i + 1;
    }
    false
}


/// One unfolding of `pairs_of`.
pub proof fn lemma_pairs_of_cons(segs: Seq<Seq<char>>)
    requires
        segs.len() > 0,
    ensures
        pairs_of(segs) == (match seg_pair(segs[0]) {
            Some(p) => seq![p],
            None => Seq::empty(),
        }) + pairs_of(segs.drop_first()),
{
}

/// A segment in canonical shape: an optional single leading space, a
/// key that is free of `=` and does not start with whitespace, then `=`,
/// then a non-empty value not ending in whitespace. It contributes
/// exactly its key and value.
pub proof fn lemma_seg_pair_canonical(pad: Seq<char>, k: Seq<char>, v: Seq<char>)
    requires
        pad.len() <= 1,
        forall|i: int| 0 <= i < pad.len() ==> pad[i] == ' ',
        k.len() > 0,
        !is_ws(k[0]),
        forall|i: int| 0 <= i < k.len() ==> k[i] != '=',
        v.len() > 0,
        !is_ws(v[v.len() - 1]),
    ensures
        seg_pair(pad + k + seq!['='] + v) == Some((k, v)),
{
    let seg = pad + k + seq!['='] + v;
    let f = pad.len() as int;
    assert(seg[f] == k[0]);
    assert forall|j: int| 0 <= j < f implies is_ws(seg[j]) by {
        assert(seg[j] == pad[j]);
    }
    lemma_first_non_ws_is(seg, f);
    assert(seg[seg.len() - 1] == v[v.len() - 1]);
    lemma_end_non_ws_is(seg, seg.len() as int);
    let t = trim(seg);
    assert(t =~= k + seq!['='] + v);
    assert forall|j: int| 0 <= j < k.len() implies t[j] != '=' by {
        assert(t[j] == k[j]);
    }
    assert(t[k.len() as int] == '=');
    lemma_find_in_is(t, '=', k.len() as int);
    assert(t.take(k.len() as int) =~= k);
    assert(t.skip(k.len() as int + 1) =~= v);
}

/// A run of pairs none of which binds `k` does not change the lookup.
pub proof fn lemma_lookup_last_skip_suffix(
    ps: Seq<(Seq<char>, Seq<char>)>,
    suf: Seq<(Seq<char>, Seq<char>)>,
    k: Seq<char>,
)
    requires
        forall|j: int| 0 <= j < suf.len() ==> (#[trigger] suf[j].0) != k,
    ensures
        lookup_last(ps + suf, k) == lookup_last(ps, k),
    decreases suf.len(),
{
    if suf.len() == 0 {
        assert(ps + suf =~= ps);
    } else {
        assert(ps + suf =~= (ps + suf.drop_last()).push(suf.last()));
        lemma_lookup_last_snoc(ps + suf.drop_last(), suf.last(), k);
        lemma_lookup_last_skip_suffix(ps, suf.drop_last(), k);
    }
}

} // verus!
