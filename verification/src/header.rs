//! The typed advertisement header: a single recipient address, the key
//! type, the encryption preference, the key material, and the ignorable
//! extension attributes, kept sorted by key for deterministic
//! serialization.

use vstd::prelude::*;
use vstd::string::{StrSliceExecFns, StringExecFns};
use crate::errors::{HeaderParseError, RequiredAttribute};
use crate::grammar::{
    ext_key, has_unknown_critical, lemma_lookup_last_skip_suffix, lemma_lookup_last_snoc,
    lemma_pairs_of_cons, lemma_seg_pair_canonical, lookup_last, lookup_last_vec, pairs_of,
    reserved_key, scan_critical, seg_pair, tokenize, tokens,
};
use crate::strutil::{
    is_ws, lemma_lex_connected, lemma_lex_irrefl, lemma_lex_trans, lemma_split_on_concat,
    lemma_split_on_len, lemma_split_on_whole, lex_lt, pairs_view, split_on, str_eq, str_lt,
};
use crate::types::{
    key_type_of_token, key_type_token, pref_of_token, pref_token, EncryptPreference, KeyType,
    KeyTypeView,
};

verus! {

/// Whether a pair sequence is strictly sorted by key; strictness also
/// makes the keys pairwise distinct.
pub open spec fn attrs_sorted(attrs: Seq<(Seq<char>, Seq<char>)>) -> bool {
    forall|i: int, j: int|
        0 <= i < j < attrs.len() ==> lex_lt(#[trigger] attrs[i].0, #[trigger] attrs[j].0)
}

/// The value stored under `k`, if any.
pub open spec fn attrs_lookup(attrs: Seq<(Seq<char>, Seq<char>)>, k: Seq<char>) -> Option<
    Seq<char>,
>
    decreases attrs.len(),
{
    if attrs.len() == 0 {
        None
    } else if attrs[0].0 == k {
        Some(attrs[0].1)
    } else {
        attrs_lookup(attrs.drop_first(), k)
    }
}

/// Insertion into a key-sorted pair sequence; an existing binding of the
/// same key is replaced.
pub open spec fn insert_attr(
    attrs: Seq<(Seq<char>, Seq<char>)>,
    k: Seq<char>,
    v: Seq<char>,
) -> Seq<(Seq<char>, Seq<char>)>
    decreases attrs.len(),
{
    if attrs.len() == 0 {
        seq![(k, v)]
    } else if k == attrs[0].0 {
        seq![(k, v)] + attrs.drop_first()
    } else if lex_lt(k, attrs[0].0) {
        seq![(k, v)] + attrs
    } else {
        seq![attrs[0]] + insert_attr(attrs.drop_first(), k, v)
    }
}

/// All of `pairs` inserted into `attrs` in order, so that a later binding
/// of a key overrides an earlier one.
pub open spec fn insert_attrs(
    attrs: Seq<(Seq<char>, Seq<char>)>,
    pairs: Seq<(Seq<char>, Seq<char>)>,
) -> Seq<(Seq<char>, Seq<char>)>
    decreases pairs.len(),
{
    if pairs.len() == 0 {
        attrs
    } else {
        insert_attrs(insert_attr(attrs, pairs[0].0, pairs[0].1), pairs.drop_first())
    }
}

/// Where `insert_attr` puts the new pair: at the first position whose key
/// is not below `k`.
pub proof fn lemma_insert_attr_at(
    attrs: Seq<(Seq<char>, Seq<char>)>,
    k: Seq<char>,
    v: Seq<char>,
    p: int,
)
    requires
        0 <= p <= attrs.len(),
        forall|j: int| 0 <= j < p ==> lex_lt(#[trigger] attrs[j].0, k),
        p < attrs.len() ==> !lex_lt(attrs[p].0, k),
    ensures
        p < attrs.len() && attrs[p].0 == k ==> insert_attr(attrs, k, v) =~= attrs.take(p) + seq![
            (k, v),
        ] + attrs.skip(p + 1),
        !(p < attrs.len() && attrs[p].0 == k) ==> insert_attr(attrs, k, v) =~= attrs.take(p)
            + seq![(k, v)] + attrs.skip(p),
    decreases attrs.len(),
{
    if attrs.len() == 0 {
    } else if k == attrs[0].0 {
        assert(p == 0) by {
            if p > 0 {
                lemma_lex_irrefl(k);
            }
        }
    } else if lex_lt(k, attrs[0].0) {
        assert(p == 0) by {
            if p > 0 {
                lemma_lex_trans(k, attrs[0].0, k);
                lemma_lex_irrefl(k);
            }
        }
    } else {
        assert(p > 0) by {
            if p == 0 {
                lemma_lex_connected(k, attrs[0].0);
            }
        }
        let rest = attrs.drop_first();
        assert forall|j: int| 0 <= j < p - 1 implies lex_lt(#[trigger] rest[j].0, k) by {
            assert(rest[j] == attrs[j + 1]);
        }
        lemma_insert_attr_at(rest, k, v, p - 1);
    }
}

/// Insertion preserves sortedness.
pub proof fn lemma_insert_attr_sorted(attrs: Seq<(Seq<char>, Seq<char>)>, k: Seq<char>, v: Seq<char>)
    requires
        attrs_sorted(attrs),
    ensures
        attrs_sorted(insert_attr(attrs, k, v)),
    decreases attrs.len(),
{
    if attrs.len() == 0 {
    } else if k == attrs[0].0 {
    } else if lex_lt(k, attrs[0].0) {
        let out = seq![(k, v)] + attrs;
        assert forall|i: int, j: int| 0 <= i < j < out.len() implies lex_lt(
            #[trigger] out[i].0,
            #[trigger] out[j].0,
        ) by {
            if i == 0 {
                if j > 1 {
                    lemma_lex_trans(k, attrs[0].0, attrs[j - 1].0);
                }
            }
        }
    } else {
        assert(lex_lt(attrs[0].0, k)) by {
            if !lex_lt(attrs[0].0, k) {
                lemma_lex_connected(k, attrs[0].0);
            }
        }
        let rest = attrs.drop_first();
        lemma_insert_attr_sorted(rest, k, v);
        let sub = insert_attr(rest, k, v);
        let out = seq![attrs[0]] + sub;
        assert forall|i: int, j: int| 0 <= i < j < out.len() implies lex_lt(
            #[trigger] out[i].0,
            #[trigger] out[j].0,
        ) by {
            if i == 0 {
                assert(lex_lt(attrs[0].0, k));
                lemma_insert_attr_members(rest, k, v, j - 1);
                let e = sub[j - 1];
                if e.0 == k {
                } else {
                    let m = choose|m: int| 0 <= m < rest.len() && rest[m] == e;
                    assert(attrs[m + 1] == e);
                    assert(lex_lt(attrs[0].0, attrs[m + 1].0));
                }
            }
        }
    }
}

/// Every pair of the insertion result is the new pair or one of the old
/// ones.
pub proof fn lemma_insert_attr_members(
    attrs: Seq<(Seq<char>, Seq<char>)>,
    k: Seq<char>,
    v: Seq<char>,
    i: int,
)
    requires
        0 <= i < insert_attr(attrs, k, v).len(),
    ensures
        insert_attr(attrs, k, v)[i].0 == k || exists|m: int|
            0 <= m < attrs.len() && attrs[m] == insert_attr(attrs, k, v)[i],
    decreases attrs.len(),
{
    if attrs.len() == 0 {
    } else if k == attrs[0].0 {
        if i > 0 {
            let e = insert_attr(attrs, k, v)[i];
            assert(attrs[i] == e);
        }
    } else if lex_lt(k, attrs[0].0) {
        if i > 0 {
            let e = insert_attr(attrs, k, v)[i];
            assert(attrs[i - 1] == e);
        }
    } else {
        if i > 0 {
            lemma_insert_attr_members(attrs.drop_first(), k, v, i - 1);
            let e = insert_attr(attrs, k, v)[i];
            assert(e == insert_attr(attrs.drop_first(), k, v)[i - 1]);
            if e.0 != k {
                let m = choose|m: int|
                    0 <= m < attrs.drop_first().len() && attrs.drop_first()[m] == e;
                assert(attrs[m + 1] == e);
            }
        } else {
            assert(attrs[0] == insert_attr(attrs, k, v)[0]);
        }
    }
}

/// Mathematical image of a [`Header`].
#[verifier::ext_equal]
pub ghost struct HeaderView {
    pub addr: Seq<char>,
    pub typ: KeyTypeView,
    pub prefer_encrypt: EncryptPreference,
    pub keydata: Seq<char>,
    pub attributes: Seq<(Seq<char>, Seq<char>)>,
}

/// One advertisement header, as parsed from or serialized into a message.
#[derive(Debug, Clone, PartialEq, Eq)]
pub struct Header {
    /// The single recipient address this header is valid for.
    pub addr: String,
    /// Key type; defaults to OpenPGP when the attribute is absent.
    pub typ: KeyType,
    /// Encryption preference; defaults to no preference.
    pub prefer_encrypt: EncryptPreference,
    /// Public key material, an opaque base64 payload.
    pub keydata: String,
    /// All other (extension) attributes, sorted by key.
    attributes: Vec<(String, String)>,
}

impl View for Header {
    type V = HeaderView;

    closed spec fn view(&self) -> HeaderView {
        HeaderView {
            addr: self.addr@,
            typ: self.typ@,
            prefer_encrypt: self.prefer_encrypt,
            keydata: self.keydata@,
            attributes: pairs_view(self.attributes@),
        }
    }
}

impl Header {
    /// The extension attributes are strictly sorted by key.
    pub open spec fn wf(&self) -> bool {
        attrs_sorted(self@.attributes)
    }

    /// Builds a header. The extension attributes may come in any order
    /// and with repeated keys; they are stored sorted, a later binding of
    /// a key overriding an earlier one.
    pub fn new(
        addr: String,
        typ: KeyType,
        pref: EncryptPreference,
        key: String,
        attributes: Vec<(String, String)>,
    ) -> (h: Header)
        ensures
            h@.addr == addr@,
            h@.typ == typ@,
            h@.prefer_encrypt == pref,
            h@.keydata == key@,
            h@.attributes == insert_attrs(Seq::empty(), pairs_view(attributes@)),
            h.wf(),
    {
        let mut sorted: Vec<(String, String)> = Vec::new();
        let n = attributes.len();
        let mut i: usize = 0;
        proof {
            assert(pairs_view(attributes@).take(0) =~= Seq::empty());
            assert(pairs_view(sorted@) =~= Seq::empty());
        }
        while i < n
            invariant
                0 <= i <= n,
                n == attributes@.len(),
                attrs_sorted(pairs_view(sorted@)),
                pairs_view(sorted@) == insert_attrs(
                    Seq::empty(),
                    pairs_view(attributes@).take(i as int),
                ),
            decreases n - i,
        {
            let ghost before = pairs_view(sorted@);
            let (k, v) = (attributes[i].0.clone(), attributes[i].1.clone());
            insert_attr_vec(&mut sorted, k, v);
            proof {
                let pv = pairs_view(attributes@);
                lemma_insert_attrs_snoc(Seq::empty(), pv.take(i as int), pv[i as int]);
                assert(pv.take(i as int).push(pv[i as int]) =~= pv.take(i + 1));
            }
            i = i + 1;
        }
        proof {
            assert(pairs_view(attributes@).take(n as int) =~= pairs_view(attributes@));
        }
        Header { addr, typ, prefer_encrypt: pref, keydata: key, attributes: sorted }
    }

    /// The announced encryption preference.
    pub fn pref(&self) -> (p: EncryptPreference)
        ensures
            p == self@.prefer_encrypt,
    {
        self.prefer_encrypt
    }

    /// Consumes the header, yielding its key material.
    pub fn into_keydata(self) -> (k: String)
        ensures
            k@ == self@.keydata,
    {
        self.keydata
    }

    /// Looks up an extension attribute by key.
    pub fn get(&self, key: &str) -> (r: Option<&String>)
        ensures
            match r {
                Some(v) => attrs_lookup(self@.attributes, key@) == Some(v@),
                None => attrs_lookup(self@.attributes, key@) is None,
            },
    {
        let n = self.attributes.len();
        let mut i: usize = 0;
        while i < n
            invariant
                0 <= i <= n,
                n == self.attributes@.len(),
                forall|j: int| 0 <= j < i ==> pairs_view(self.attributes@)[j].0 != key@,
            decreases n - i,
        {
            if str_eq(self.attributes[i].0.as_str(), key) {
                proof {
                    lemma_attrs_lookup_at(pairs_view(self.attributes@), key@, i as int);
                }
                return Some(&self.attributes[i].1);
            }
            i = i + 1;
        }
        proof {
            lemma_attrs_lookup_none(pairs_view(self.attributes@), key@);
        }
        None
    }
}

/// Folding one more pair into an insertion of many.
pub proof fn lemma_insert_attrs_snoc(
    attrs: Seq<(Seq<char>, Seq<char>)>,
    pairs: Seq<(Seq<char>, Seq<char>)>,
    x: (Seq<char>, Seq<char>),
)
    ensures
        insert_attrs(attrs, pairs.push(x)) == insert_attr(insert_attrs(attrs, pairs), x.0, x.1),
    decreases pairs.len(),
{
    if pairs.len() == 0 {
        assert(pairs.push(x).drop_first() =~= Seq::empty());
        assert(insert_attrs(attrs, pairs.push(x)) == insert_attrs(
            insert_attr(attrs, x.0, x.1),
            Seq::empty(),
        ));
    } else {
        assert(pairs.push(x).drop_first() =~= pairs.drop_first().push(x));
        lemma_insert_attrs_snoc(insert_attr(attrs, pairs[0].0, pairs[0].1), pairs.drop_first(), x);
    }
}

/// A key found at `i` with no earlier occurrence is what lookup returns.
pub proof fn lemma_attrs_lookup_at(attrs: Seq<(Seq<char>, Seq<char>)>, k: Seq<char>, i: int)
    requires
        0 <= i < attrs.len(),
        attrs[i].0 == k,
        forall|j: int| 0 <= j < i ==> attrs[j].0 != k,
    ensures
        attrs_lookup(attrs, k) == Some(attrs[i].1),
    decreases i,
{
    if i > 0 {
        lemma_attrs_lookup_at(attrs.drop_first(), k, i - 1);
    }
}

/// A key that occurs nowhere is not found.
pub proof fn lemma_attrs_lookup_none(attrs: Seq<(Seq<char>, Seq<char>)>, k: Seq<char>)
    requires
        forall|j: int| 0 <= j < attrs.len() ==> attrs[j].0 != k,
    ensures
        attrs_lookup(attrs, k) is None,
    decreases attrs.len(),
{
    if attrs.len() > 0 {
        lemma_attrs_lookup_none(attrs.drop_first(), k);
    }
}

/// Sorted insertion on the stored vector, matching [`insert_attr`].
fn insert_attr_vec(attrs: &mut Vec<(String, String)>, k: String, v: String)
    requires
        attrs_sorted(pairs_view(old(attrs)@)),
    ensures
        pairs_view(final(attrs)@) == insert_attr(pairs_view(old(attrs)@), k@, v@),
        attrs_sorted(pairs_view(final(attrs)@)),
{
    let ghost a0 = pairs_view(old(attrs)@);
    let n = attrs.len();
    let mut p: usize = 0;
    while p < n && str_lt(attrs[p].0.as_str(), k.as_str())
        invariant
            0 <= p <= n,
            n == attrs@.len(),
            attrs == old(attrs),
            forall|j: int| 0 <= j < p ==> lex_lt(#[trigger] pairs_view(attrs@)[j].0, k@),
        decreases n - p,
    {
        p = p + 1;
    }
    proof {
        lemma_insert_attr_at(a0, k@, v@, p as int);
        lemma_insert_attr_sorted(a0, k@, v@);
    }
    if p < n && str_eq(attrs[p].0.as_str(), k.as_str()) {
        attrs.remove(p);
        attrs.insert(p, (k, v));
        proof {
            assert(pairs_view(attrs@) =~= a0.take(p as int) + seq![(k@, v@)] + a0.skip(
                p as int + 1,
            ));
        }
    } else {
        attrs.insert(p, (k, v));
        proof {
            assert(pairs_view(attrs@) =~= a0.take(p as int) + seq![(k@, v@)] + a0.skip(p as int));
        }
    }
}


/// Folds the tokenized pairs into the sorted extension map: every
/// `_`-prefixed key is inserted in order, so a later binding of a key
/// overrides an earlier one; other keys contribute nothing.
pub open spec fn ext_fold(
    acc: Seq<(Seq<char>, Seq<char>)>,
    ps: Seq<(Seq<char>, Seq<char>)>,
) -> Seq<(Seq<char>, Seq<char>)>
    decreases ps.len(),
{
    if ps.len() == 0 {
        acc
    } else {
        ext_fold(
            if ext_key(ps[0].0) {
                insert_attr(acc, ps[0].0, ps[0].1)
            } else {
                acc
            },
            ps.drop_first(),
        )
    }
}

/// The extension attributes of a token sequence.
pub open spec fn ext_attrs(ps: Seq<(Seq<char>, Seq<char>)>) -> Seq<(Seq<char>, Seq<char>)> {
    ext_fold(Seq::empty(), ps)
}

pub proof fn lemma_ext_fold_snoc(
    acc: Seq<(Seq<char>, Seq<char>)>,
    ps: Seq<(Seq<char>, Seq<char>)>,
    x: (Seq<char>, Seq<char>),
)
    ensures
        ext_fold(acc, ps.push(x)) == if ext_key(x.0) {
            insert_attr(ext_fold(acc, ps), x.0, x.1)
        } else {
            ext_fold(acc, ps)
        },
    decreases ps.len(),
{
    let acc2 = if ext_key(x.0) {
        insert_attr(acc, x.0, x.1)
    } else {
        acc
    };
    if ps.len() == 0 {
        assert(ps.push(x)[0] == x);
        assert(ps.push(x).drop_first() =~= ps);
        assert(ext_fold(acc2, ps) == acc2);
        assert(ext_fold(acc, ps.push(x)) == ext_fold(acc2, ps.push(x).drop_first()));
    } else {
        assert(ps.push(x)[0] == ps[0]);
        assert(ps.push(x).drop_first() =~= ps.drop_first().push(x));
        lemma_ext_fold_snoc(
            if ext_key(ps[0].0) {
                insert_attr(acc, ps[0].0, ps[0].1)
            } else {
                acc
            },
            ps.drop_first(),
            x,
        );
    }
}

/// What a raw attribute string means, exactly: tokenize leniently, then
/// demand `addr` and `keydata`, reject any unknown critical key, default
/// the understood optional attributes, and keep the extension keys
/// sorted.
pub open spec fn parse_spec(s: Seq<char>) -> Result<HeaderView, HeaderParseError> {
    let ps = tokens(s);
    if lookup_last(ps, "addr"@) is None {
        Err(HeaderParseError::MissingCriticalAttribute(RequiredAttribute::Addr))
    } else if lookup_last(ps, "keydata"@) is None {
        Err(HeaderParseError::MissingCriticalAttribute(RequiredAttribute::Keydata))
    } else if has_unknown_critical(ps) {
        Err(HeaderParseError::UnknownCriticalAttributes)
    } else {
        Ok(
            HeaderView {
                addr: lookup_last(ps, "addr"@)->0,
                typ: match lookup_last(ps, "type"@) {
                    Some(t) => key_type_of_token(t),
                    None => KeyTypeView::OpenPGP,
                },
                prefer_encrypt: match lookup_last(ps, "prefer-encrypt"@) {
                    Some(t) => pref_of_token(t),
                    None => EncryptPreference::NoPreference,
                },
                keydata: lookup_last(ps, "keydata"@)->0,
                attributes: ext_attrs(ps),
            },
        )
    }
}

/// Parses a raw advertisement attribute string into a header, exactly as
/// [`parse_spec`] prescribes.
pub fn parse_header(s: &str) -> (r: Result<Header, HeaderParseError>)
    ensures
        match r {
            Ok(h) => parse_spec(s@) == Ok::<HeaderView, HeaderParseError>(h@) && h.wf(),
            Err(e) => parse_spec(s@) == Err::<HeaderView, HeaderParseError>(e),
        },
{
    let pairs = tokenize(s);
    let ghost ps = tokens(s@);
    let addr = match lookup_last_vec(&pairs, "addr") {
        Some(a) => a,
        None => {
            return Err(HeaderParseError::MissingCriticalAttribute(RequiredAttribute::Addr));
        },
    };
    let keydata = match lookup_last_vec(&pairs, "keydata") {
        Some(kd) => kd,
        None => {
            return Err(HeaderParseError::MissingCriticalAttribute(RequiredAttribute::Keydata));
        },
    };
    if scan_critical(&pairs) {
        return Err(HeaderParseError::UnknownCriticalAttributes);
    }
    let typ = match lookup_last_vec(&pairs, "type") {
        Some(t) => KeyType::from_token(t.as_str()),
        None => KeyType::OpenPGP,
    };
    let pref = match lookup_last_vec(&pairs, "prefer-encrypt") {
        Some(t) => EncryptPreference::from_token(t.as_str()),
        None => EncryptPreference::NoPreference,
    };
    let mut attrs: Vec<(String, String)> = Vec::new();
    let n = pairs.len();
    let mut i: usize = 0;
    proof {
        assert(ps.take(0) =~= Seq::<(Seq<char>, Seq<char>)>::empty());
        assert(pairs_view(attrs@) =~= Seq::<(Seq<char>, Seq<char>)>::empty());
    }
    while i < n
        invariant
            0 <= i <= n,
            n == pairs@.len(),
            ps == pairs_view(pairs@),
            attrs_sorted(pairs_view(attrs@)),
            pairs_view(attrs@) == ext_fold(Seq::empty(), ps.take(i as int)),
        decreases n - i,
    {
        let k = pairs[i].0.as_str();
        proof {
            assert(ps[i as int] == (pairs@[i as int].0@, pairs@[i as int].1@));
        }
        if k.unicode_len() > 0 && k.get_char(0) == '_' {
            insert_attr_vec(&mut attrs, pairs[i].0.clone(), pairs[i].1.clone());
        }
        proof {
            lemma_ext_fold_snoc(Seq::empty(), ps.take(i as int), ps[i as int]);
            assert(ps.take(i as int).push(ps[i as int]) =~= ps.take(i as int + 1));
        }
        i = i + 1;
    }
    proof {
        assert(ps.take(n as int) =~= ps);
    }
    let h = Header { addr, typ, prefer_encrypt: pref, keydata, attributes: attrs };
    proof {
        assert(parse_spec(s@) == Ok::<HeaderView, HeaderParseError>(h@));
    }
    Ok(h)
}

/// The serialized form of the extension attributes: `key=value; ` for
/// each, in order.
pub open spec fn render_attrs(attrs: Seq<(Seq<char>, Seq<char>)>) -> Seq<char>
    decreases attrs.len(),
{
    if attrs.len() == 0 {
        Seq::empty()
    } else {
        attrs[0].0 + "="@ + attrs[0].1 + "; "@ + render_attrs(attrs.drop_first())
    }
}

pub proof fn lemma_render_attrs_snoc(attrs: Seq<(Seq<char>, Seq<char>)>, x: (Seq<char>, Seq<char>))
    ensures
        render_attrs(attrs.push(x)) == render_attrs(attrs) + (x.0 + "="@ + x.1 + "; "@),
    decreases attrs.len(),
{
    if attrs.len() == 0 {
        assert(attrs.push(x)[0] == x);
        assert(attrs.push(x).drop_first() =~= attrs);
        assert(render_attrs(attrs) == Seq::<char>::empty());
        assert(render_attrs(attrs.push(x)) == x.0 + "="@ + x.1 + "; "@ + render_attrs(
            attrs.push(x).drop_first(),
        ));
        assert(x.0 + "="@ + x.1 + "; "@ + render_attrs(attrs) =~= render_attrs(attrs) + (x.0 + "="@
            + x.1 + "; "@));
    } else {
        assert(attrs.push(x)[0] == attrs[0]);
        assert(attrs.push(x).drop_first() =~= attrs.drop_first().push(x));
        lemma_render_attrs_snoc(attrs.drop_first(), x);
        assert(attrs[0].0 + "="@ + attrs[0].1 + "; "@ + (render_attrs(attrs.drop_first()) + (x.0
            + "="@ + x.1 + "; "@)) =~= (attrs[0].0 + "="@ + attrs[0].1 + "; "@ + render_attrs(
            attrs.drop_first(),
        )) + (x.0 + "="@ + x.1 + "; "@));
    }
}

/// The canonical serialization of a header: `addr`, `type`,
/// `prefer-encrypt`, the extension attributes in their stored order, then
/// `keydata` last, with no trailing separator.
pub open spec fn format_spec(h: HeaderView) -> Seq<char> {
    "addr"@ + "="@ + h.addr + "; "@ + "type"@ + "="@ + key_type_token(h.typ) + "; "@
        + "prefer-encrypt"@ + "="@ + pref_token(h.prefer_encrypt) + "; "@ + render_attrs(
        h.attributes,
    ) + "keydata"@ + "="@ + h.keydata
}

/// Serializes a header, exactly as [`format_spec`] prescribes.
pub fn format_header(h: &Header) -> (r: String)
    ensures
        r@ == format_spec(h@),
{
    let mut out = String::new();
    out.append("addr");
    out.append("=");
    out.append(h.addr.as_str());
    out.append("; ");
    out.append("type");
    out.append("=");
    let tt = h.typ.to_token();
    out.append(tt.as_str());
    out.append("; ");
    out.append("prefer-encrypt");
    out.append("=");
    let pt = h.prefer_encrypt.to_token();
    out.append(pt.as_str());
    out.append("; ");
    let ghost head = out@;
    let ghost av = pairs_view(h.attributes@);
    let n = h.attributes.len();
    let mut i: usize = 0;
    proof {
        assert(av.take(0) =~= Seq::<(Seq<char>, Seq<char>)>::empty());
        assert(head + render_attrs(av.take(0)) =~= head);
    }
    while i < n
        invariant
            0 <= i <= n,
            n == h.attributes@.len(),
            av == pairs_view(h.attributes@),
            out@ == head + render_attrs(av.take(i as int)),
        decreases n - i,
    {
        let ghost before = out@;
        out.append(h.attributes[i].0.as_str());
        out.append("=");
        out.append(h.attributes[i].1.as_str());
        out.append("; ");
        proof {
            lemma_render_attrs_snoc(av.take(i as int), av[i as int]);
            assert(av.take(i as int).push(av[i as int]) =~= av.take(i as int + 1));
            assert(before + av[i as int].0 + "="@ + av[i as int].1 + "; "@ =~= head + (render_attrs(
                av.take(i as int),
            ) + (av[i as int].0 + "="@ + av[i as int].1 + "; "@)));
        }
        i = i + 1;
    }
    proof {
        assert(av.take(n as int) =~= av);
    }
    out.append("keydata");
    out.append("=");
    out.append(h.keydata.as_str());
    out
}


/// A value that survives the wire format: non-empty, free of the
/// segment separator, and not ending in whitespace (a trailing
/// whitespace character would be trimmed away on the way back).
pub open spec fn valid_value(v: Seq<char>) -> bool {
    v.len() > 0 && !is_ws(v[v.len() - 1]) && (forall|i: int| 0 <= i < v.len() ==> v[i] != ';')
}

/// A serialized key: non-empty, not starting with whitespace, free of
/// the separator and of `=`.
pub open spec fn clean_word(w: Seq<char>) -> bool {
    w.len() > 0 && !is_ws(w[0]) && (forall|i: int|
        0 <= i < w.len() ==> w[i] != ';' && w[i] != '=')
}

/// An extension attribute that survives the wire format: a `_`-prefixed
/// clean key with a valid value.
pub open spec fn valid_ext_pair(k: Seq<char>, v: Seq<char>) -> bool {
    clean_word(k) && k[0] == '_' && valid_value(v)
}

/// A header every field of which survives the wire format; such headers
/// are exactly the ones whose canonical serialization parses back.
pub open spec fn valid_header_view(h: HeaderView) -> bool {
    &&& valid_value(h.addr)
    &&& valid_value(h.keydata)
    &&& match h.typ {
        KeyTypeView::OpenPGP => true,
        KeyTypeView::Unknown(s) => valid_value(s) && s != "1"@,
    }
    &&& attrs_sorted(h.attributes)
    &&& forall|i: int|
        0 <= i < h.attributes.len() ==> valid_ext_pair(
            (#[trigger] h.attributes[i]).0,
            h.attributes[i].1,
        )
}

/// Ground facts about the wire vocabulary's words.
proof fn lemma_wire_word_facts()
    ensures
        clean_word("addr"@),
        clean_word("type"@),
        clean_word("prefer-encrypt"@),
        clean_word("keydata"@),
        "addr"@.len() == 4,
        "type"@.len() == 4,
        "prefer-encrypt"@.len() == 14,
        "keydata"@.len() == 7,
        "addr"@[0] == 'a',
        "type"@[0] == 't',
        "prefer-encrypt"@[0] == 'p',
        "keydata"@[0] == 'k',
        "="@ == seq!['='],
        "; "@ == seq![';', ' '],
        "1"@ == seq!['1'],
        valid_value("1"@),
        valid_value("mutual"@),
        valid_value("nopreference"@),
        "mutual"@.len() == 6,
        "nopreference"@.len() == 12,
{
    reveal_strlit("addr");
    reveal_strlit("type");
    reveal_strlit("prefer-encrypt");
    reveal_strlit("keydata");
    reveal_strlit("=");
    reveal_strlit("; ");
    reveal_strlit("1");
    reveal_strlit("mutual");
    reveal_strlit("nopreference");
    assert("="@ =~= seq!['=']);
    assert("; "@ =~= seq![';', ' ']);
    assert("1"@ =~= seq!['1']);
}

/// Keys that are not extensions contribute nothing to the fold.
pub proof fn lemma_ext_fold_skip_prefix(
    acc: Seq<(Seq<char>, Seq<char>)>,
    pre: Seq<(Seq<char>, Seq<char>)>,
    ps: Seq<(Seq<char>, Seq<char>)>,
)
    requires
        forall|j: int| 0 <= j < pre.len() ==> !ext_key((#[trigger] pre[j]).0),
    ensures
        ext_fold(acc, pre + ps) == ext_fold(acc, ps),
    decreases pre.len(),
{
    if pre.len() == 0 {
        assert(pre + ps =~= ps);
    } else {
        assert((pre + ps)[0] == pre[0]);
        assert((pre + ps).drop_first() =~= pre.drop_first() + ps);
        assert(ext_fold(acc, pre + ps) == ext_fold(acc, (pre + ps).drop_first()));
        lemma_ext_fold_skip_prefix(acc, pre.drop_first(), ps);
    }
}

/// Inserting a key above every stored key appends.
pub proof fn lemma_insert_attr_append(acc: Seq<(Seq<char>, Seq<char>)>, k: Seq<char>, v: Seq<char>)
    requires
        forall|j: int| 0 <= j < acc.len() ==> lex_lt((#[trigger] acc[j]).0, k),
    ensures
        insert_attr(acc, k, v) == acc.push((k, v)),
{
    lemma_insert_attr_at(acc, k, v, acc.len() as int);
    assert(acc.take(acc.len() as int) + seq![(k, v)] + acc.skip(acc.len() as int) =~= acc.push(
        (k, v),
    ));
}

/// Folding a sorted run of extension pairs above every stored key
/// appends them unchanged.
pub proof fn lemma_ext_fold_append(acc: Seq<(Seq<char>, Seq<char>)>, ps: Seq<(Seq<char>, Seq<char>)>)
    requires
        forall|j: int| 0 <= j < ps.len() ==> ext_key((#[trigger] ps[j]).0),
        attrs_sorted(ps),
        forall|a: int, b: int|
            0 <= a < acc.len() && 0 <= b < ps.len() ==> lex_lt(
                (#[trigger] acc[a]).0,
                (#[trigger] ps[b]).0,
            ),
    ensures
        ext_fold(acc, ps) == acc + ps,
    decreases ps.len(),
{
    if ps.len() == 0 {
        assert(acc + ps =~= acc);
    } else {
        lemma_insert_attr_append(acc, ps[0].0, ps[0].1);
        assert((ps[0].0, ps[0].1) == ps[0]);
        let acc2 = acc.push(ps[0]);
        assert(ext_fold(acc, ps) == ext_fold(insert_attr(acc, ps[0].0, ps[0].1), ps.drop_first()));
        assert forall|a: int, b: int|
            0 <= a < acc2.len() && 0 <= b < ps.drop_first().len() implies lex_lt(
            (#[trigger] acc2[a]).0,
            (#[trigger] ps.drop_first()[b]).0,
        ) by {
            assert(ps.drop_first()[b] == ps[b + 1]);
            if a < acc.len() {
                assert(acc2[a] == acc[a]);
            } else {
                assert(acc2[a] == ps[0]);
            }
        }
        lemma_ext_fold_append(acc2, ps.drop_first());
        assert(acc2 + ps.drop_first() =~= acc + ps);
    }
}

/// What the tail of a canonical serialization tokenizes to: each
/// extension pair, then the key material.
proof fn lemma_tokens_of_tail(attrs: Seq<(Seq<char>, Seq<char>)>, kd: Seq<char>)
    requires
        forall|i: int|
            0 <= i < attrs.len() ==> valid_ext_pair((#[trigger] attrs[i]).0, attrs[i].1),
        valid_value(kd),
    ensures
        pairs_of(
            split_on(seq![' '] + render_attrs(attrs) + "keydata"@ + "="@ + kd, ';'),
        ) == attrs + seq![("keydata"@, kd)],
    decreases attrs.len(),
{
    lemma_wire_word_facts();
    let chunk = seq![' '] + render_attrs(attrs) + "keydata"@ + "="@ + kd;
    if attrs.len() == 0 {
        assert(render_attrs(attrs) == Seq::<char>::empty());
        assert(chunk =~= seq![' '] + "keydata"@ + seq!['='] + kd);
        let seg = seq![' '] + "keydata"@ + seq!['='] + kd;
        assert forall|i: int| 0 <= i < seg.len() implies seg[i] != ';' by {
            if 1 <= i < 8 {
                assert(seg[i] == "keydata"@[i - 1]);
            } else if i >= 9 {
                assert(seg[i] == kd[i - 9]);
            }
        }
        lemma_split_on_whole(seg, ';');
        lemma_pairs_of_cons(seq![seg]);
        assert(seq![seg][0] == seg);
        assert(seq![seg].drop_first() =~= Seq::<Seq<char>>::empty());
        assert(pairs_of(Seq::<Seq<char>>::empty()) == Seq::<(Seq<char>, Seq<char>)>::empty());
        lemma_seg_pair_canonical(seq![' '], "keydata"@, kd);
        assert(seg_pair(seg) == Some(("keydata"@, kd)));
        assert(seq![("keydata"@, kd)] + Seq::<(Seq<char>, Seq<char>)>::empty() =~= attrs + seq![
            ("keydata"@, kd),
        ]);
    } else {
        let x = attrs[0];
        let a = seq![' '] + x.0 + seq!['='] + x.1;
        let rest = seq![' '] + render_attrs(attrs.drop_first()) + "keydata"@ + "="@ + kd;
        assert(render_attrs(attrs) == x.0 + "="@ + x.1 + "; "@ + render_attrs(attrs.drop_first()));
        assert(chunk =~= a + seq![';'] + rest);
        assert forall|i: int| 0 <= i < a.len() implies a[i] != ';' by {
            if 1 <= i < 1 + x.0.len() {
                assert(a[i] == x.0[i - 1]);
            } else if i >= 2 + x.0.len() {
                assert(a[i] == x.1[i - 2 - x.0.len()]);
            }
        }
        lemma_split_on_concat(a, rest, ';');
        let segs = seq![a] + split_on(rest, ';');
        lemma_split_on_len(rest, ';');
        lemma_pairs_of_cons(segs);
        assert(segs[0] == a);
        assert(segs.drop_first() =~= split_on(rest, ';'));
        assert(!is_ws('_'));
        lemma_seg_pair_canonical(seq![' '], x.0, x.1);
        assert(seg_pair(a) == Some((x.0, x.1)));
        assert forall|i: int|
            0 <= i < attrs.drop_first().len() implies valid_ext_pair(
            (#[trigger] attrs.drop_first()[i]).0,
            attrs.drop_first()[i].1,
        ) by {
            assert(attrs.drop_first()[i] == attrs[i + 1]);
        }
        lemma_tokens_of_tail(attrs.drop_first(), kd);
        assert(pairs_of(split_on(chunk, ';')) == seq![(x.0, x.1)] + (attrs.drop_first() + seq![
            ("keydata"@, kd),
        ]));
        assert((x.0, x.1) == x);
        assert(seq![(x.0, x.1)] + (attrs.drop_first() + seq![("keydata"@, kd)]) =~= attrs + seq![
            ("keydata"@, kd),
        ]);
    }
}

/// Round trip: parsing the canonical serialization of a header whose
/// fields survive the wire format yields that header back, extension
/// attributes included.
pub proof fn lemma_parse_format_round_trip(h: HeaderView)
    requires
        valid_header_view(h),
    ensures
        parse_spec(format_spec(h)) == Ok::<HeaderView, HeaderParseError>(h),
{
    lemma_wire_word_facts();
    reveal_strlit("mutual");
    reveal_strlit("nopreference");
    reveal_strlit("1");
    let ktok = key_type_token(h.typ);
    let ptok = pref_token(h.prefer_encrypt);
    assert(valid_value(ktok));
    assert(valid_value(ptok));
    let s = format_spec(h);
    let c1 = "addr"@ + seq!['='] + h.addr;
    let c2 = seq![' '] + "type"@ + seq!['='] + ktok;
    let c3 = seq![' '] + "prefer-encrypt"@ + seq!['='] + ptok;
    let tail = seq![' '] + render_attrs(h.attributes) + "keydata"@ + "="@ + h.keydata;
    assert(s =~= c1 + seq![';'] + (c2 + seq![';'] + (c3 + seq![';'] + tail)));
    assert forall|i: int| 0 <= i < c1.len() implies c1[i] != ';' by {
        if i < 4 {
            assert(c1[i] == "addr"@[i]);
        } else if i >= 5 {
            assert(c1[i] == h.addr[i - 5]);
        }
    }
    assert forall|i: int| 0 <= i < c2.len() implies c2[i] != ';' by {
        if 1 <= i < 5 {
            assert(c2[i] == "type"@[i - 1]);
        } else if i >= 6 {
            assert(c2[i] == ktok[i - 6]);
        }
    }
    assert forall|i: int| 0 <= i < c3.len() implies c3[i] != ';' by {
        if 1 <= i < 15 {
            assert(c3[i] == "prefer-encrypt"@[i - 1]);
        } else if i >= 16 {
            assert(c3[i] == ptok[i - 16]);
        }
    }
    lemma_split_on_concat(c1, c2 + seq![';'] + (c3 + seq![';'] + tail), ';');
    lemma_split_on_concat(c2, c3 + seq![';'] + tail, ';');
    lemma_split_on_concat(c3, tail, ';');
    let segs = split_on(s, ';');
    assert(segs == seq![c1] + (seq![c2] + (seq![c3] + split_on(tail, ';'))));
    lemma_split_on_len(tail, ';');
    lemma_pairs_of_cons(segs);
    assert(segs[0] == c1);
    assert(segs.drop_first() =~= seq![c2] + (seq![c3] + split_on(tail, ';')));
    lemma_pairs_of_cons(seq![c2] + (seq![c3] + split_on(tail, ';')));
    assert((seq![c2] + (seq![c3] + split_on(tail, ';')))[0] == c2);
    assert((seq![c2] + (seq![c3] + split_on(tail, ';'))).drop_first() =~= seq![c3] + split_on(
        tail,
        ';',
    ));
    lemma_pairs_of_cons(seq![c3] + split_on(tail, ';'));
    assert((seq![c3] + split_on(tail, ';'))[0] == c3);
    assert((seq![c3] + split_on(tail, ';')).drop_first() =~= split_on(tail, ';'));
    lemma_seg_pair_canonical(Seq::empty(), "addr"@, h.addr);
    assert(Seq::<char>::empty() + "addr"@ + seq!['='] + h.addr =~= c1);
    lemma_seg_pair_canonical(seq![' '], "type"@, ktok);
    lemma_seg_pair_canonical(seq![' '], "prefer-encrypt"@, ptok);
    lemma_tokens_of_tail(h.attributes, h.keydata);
    let kdp = ("keydata"@, h.keydata);
    let ps = tokens(s);
    assert(ps == seq![("addr"@, h.addr)] + (seq![("type"@, ktok)] + (seq![("prefer-encrypt"@, ptok)]
        + (h.attributes + seq![kdp]))));
    let base = seq![("addr"@, h.addr), ("type"@, ktok), ("prefer-encrypt"@, ptok)];
    assert(ps =~= (base + h.attributes).push(kdp));
    // the four understood keys and the extension keys are pairwise
    // distinguishable by length or first character
    assert forall|j: int|
        0 <= j < h.attributes.len() implies (#[trigger] h.attributes[j]).0 != "addr"@
        && h.attributes[j].0 != "type"@ && h.attributes[j].0 != "prefer-encrypt"@
        && h.attributes[j].0 != "keydata"@ by {
        assert(h.attributes[j].0[0] == '_');
    }
    assert("keydata"@ != "addr"@ && "keydata"@ != "type"@ && "keydata"@ != "prefer-encrypt"@);
    assert("type"@ != "addr"@) by {
        reveal_strlit("type");
        reveal_strlit("addr");
        assert("type"@[0] == 't' && "addr"@[0] == 'a');
    }
    assert("prefer-encrypt"@ != "addr"@ && "prefer-encrypt"@ != "type"@);
    // each understood key's last binding
    lemma_lookup_last_snoc(base + h.attributes, kdp, "keydata"@);
    assert(lookup_last(ps, "keydata"@) == Some(h.keydata));
    lemma_lookup_last_snoc(base + h.attributes, kdp, "addr"@);
    lemma_lookup_last_skip_suffix(base, h.attributes, "addr"@);
    assert(base =~= seq![("addr"@, h.addr), ("type"@, ktok)].push(("prefer-encrypt"@, ptok)));
    lemma_lookup_last_snoc(seq![("addr"@, h.addr), ("type"@, ktok)], ("prefer-encrypt"@, ptok), "addr"@);
    assert(seq![("addr"@, h.addr), ("type"@, ktok)] =~= seq![("addr"@, h.addr)].push(
        ("type"@, ktok),
    ));
    lemma_lookup_last_snoc(seq![("addr"@, h.addr)], ("type"@, ktok), "addr"@);
    assert(seq![("addr"@, h.addr)] =~= Seq::<(Seq<char>, Seq<char>)>::empty().push(
        ("addr"@, h.addr),
    ));
    lemma_lookup_last_snoc(Seq::empty(), ("addr"@, h.addr), "addr"@);
    assert(lookup_last(ps, "addr"@) == Some(h.addr));
    lemma_lookup_last_snoc(base + h.attributes, kdp, "type"@);
    lemma_lookup_last_skip_suffix(base, h.attributes, "type"@);
    lemma_lookup_last_snoc(seq![("addr"@, h.addr), ("type"@, ktok)], ("prefer-encrypt"@, ptok), "type"@);
    lemma_lookup_last_snoc(seq![("addr"@, h.addr)], ("type"@, ktok), "type"@);
    assert(lookup_last(ps, "type"@) == Some(ktok));
    lemma_lookup_last_snoc(base + h.attributes, kdp, "prefer-encrypt"@);
    lemma_lookup_last_skip_suffix(base, h.attributes, "prefer-encrypt"@);
    lemma_lookup_last_snoc(seq![("addr"@, h.addr), ("type"@, ktok)], ("prefer-encrypt"@, ptok), "prefer-encrypt"@);
    assert(lookup_last(ps, "prefer-encrypt"@) == Some(ptok));
    // no unknown critical key is present
    assert(!has_unknown_critical(ps)) by {
        assert forall|i: int|
            0 <= i < ps.len() implies reserved_key((#[trigger] ps[i]).0) || ext_key(ps[i].0) by {
            if i < 3 {
                assert(ps[i] == base[i]);
            } else if i < 3 + h.attributes.len() {
                assert(ps[i] == h.attributes[i - 3]);
                assert(ext_key(h.attributes[i - 3].0));
            } else {
                assert(ps[i] == kdp);
            }
        }
    }
    // the extension fold returns exactly the stored attributes
    lemma_ext_fold_snoc(Seq::empty(), base + h.attributes, kdp);
    assert(!ext_key(kdp.0)) by {
        assert("keydata"@[0] == 'k');
    }
    assert forall|j: int| 0 <= j < base.len() implies !ext_key((#[trigger] base[j]).0) by {
        if j == 0 {
            assert(base[j].0[0] == 'a');
        } else if j == 1 {
            assert(base[j].0[0] == 't');
        } else {
            assert(base[j].0[0] == 'p');
        }
    }
    lemma_ext_fold_skip_prefix(Seq::empty(), base, h.attributes);
    lemma_ext_fold_append(Seq::empty(), h.attributes);
    assert(Seq::<(Seq<char>, Seq<char>)>::empty() + h.attributes =~= h.attributes);
    assert(ext_attrs(ps) == h.attributes);
    // the parsed view matches the serialized header field for field
    assert(parse_spec(s) is Ok);
    let g = parse_spec(s)->Ok_0;
    assert(g.addr == h.addr);
    assert(g.keydata == h.keydata);
    assert(g.typ == h.typ) by {
        match h.typ {
            KeyTypeView::OpenPGP => {
                assert(ktok == "1"@);
            },
            KeyTypeView::Unknown(t) => {
                assert(ktok == t && t != "1"@);
            },
        }
    }
    assert(g.prefer_encrypt == h.prefer_encrypt) by {
        match h.prefer_encrypt {
            EncryptPreference::Mutual => {},
            EncryptPreference::NoPreference => {
                assert("nopreference"@ != "mutual"@);
            },
        }
    }
    assert(g.attributes == h.attributes);
    assert(g =~= h);
}

/// Critical-attribute rejection: however the required attributes are
/// set, a token key besides the four understood ones and the
/// `_`-prefixed extensions fails the parse, whatever its value.
pub proof fn lemma_unknown_critical_rejected(s: Seq<char>, i: int)
    requires
        lookup_last(tokens(s), "addr"@) is Some,
        lookup_last(tokens(s), "keydata"@) is Some,
        0 <= i < tokens(s).len(),
        !reserved_key(tokens(s)[i].0),
        !ext_key(tokens(s)[i].0),
    ensures
        parse_spec(s) == Err::<HeaderView, HeaderParseError>(
            HeaderParseError::UnknownCriticalAttributes,
        ),
{
    assert(has_unknown_critical(tokens(s)));
}

} // verus!
