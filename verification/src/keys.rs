//! Sort keys: a tagged value union with a total order.
//!
//! A column's sort key may be a boolean, an integer or a text, so that
//! heterogeneous field types are each comparable within their own tag.
//! Values of different tags compare by tag rank (booleans, then integers,
//! then texts); values of one tag compare by their natural order, texts
//! lexicographically by character code point.

use vstd::prelude::*;

verus! {

/// A comparable value extracted from a row for one field, used only for
/// ordering.
#[derive(Debug)]
pub enum KeyValue {
    /// A boolean key; `false` orders before `true`.
    Bool(bool),
    /// An integer key.
    Int(i64),
    /// A text key, ordered lexicographically by character code point.
    Text(String),
}

/// The mathematical value of a [`KeyValue`].
pub enum KeyView {
    /// A boolean key.
    Bool(bool),
    /// An integer key.
    Int(int),
    /// A text key.
    Text(Seq<char>),
}

impl View for KeyValue {
    type V = KeyView;

    open spec fn view(&self) -> KeyView {
        match self {
            KeyValue::Bool(b) => KeyView::Bool(*b),
            KeyValue::Int(i) => KeyView::Int(*i as int),
            KeyValue::Text(s) => KeyView::Text(s@),
        }
    }
}

/// Lexicographic order on character sequences, by code point.
pub open spec fn lex_le(a: Seq<char>, b: Seq<char>) -> bool
    decreases a.len(),
{
    if a.len() == 0 {
        true
    } else if b.len() == 0 {
        false
    } else if (a[0] as u32) < (b[0] as u32) {
        true
    } else if (b[0] as u32) < (a[0] as u32) {
        false
    } else {
        lex_le(a.drop_first(), b.drop_first())
    }
}

/// The rank of a key's tag: booleans order before integers, integers
/// before texts.
pub open spec fn key_rank(k: KeyView) -> int {
    match k {
        KeyView::Bool(_) => 0,
        KeyView::Int(_) => 1,
        KeyView::Text(_) => 2,
    }
}

/// The total order on keys: by tag rank, then within one tag by the tag's
/// natural order.
pub open spec fn key_le(a: KeyView, b: KeyView) -> bool {
    match (a, b) {
        (KeyView::Bool(x), KeyView::Bool(y)) => !x || y,
        (KeyView::Int(x), KeyView::Int(y)) => x <= y,
        (KeyView::Text(x), KeyView::Text(y)) => lex_le(x, y),
        _ => key_rank(a) < key_rank(b),
    }
}

/// Two keys tied under the order: each is less-or-equal to the other.
/// Tied keys are interchangeable for sorting; a stable sort keeps their
/// rows in their pre-sort relative order.
pub open spec fn key_tied(a: KeyView, b: KeyView) -> bool {
    key_le(a, b) && key_le(b, a)
}

impl KeyValue {
    /// Whether `self` orders at or before `other`.
    pub fn le(&self, other: &KeyValue) -> (r: bool)
        ensures
            r == key_le(self@, other@),
    {
        match (self, other) {
            (KeyValue::Bool(x), KeyValue::Bool(y)) => !*x || *y,
            (KeyValue::Bool(_), _) => true,
            (KeyValue::Int(_), KeyValue::Bool(_)) => false,
            (KeyValue::Int(x), KeyValue::Int(y)) => *x <= *y,
            (KeyValue::Int(_), KeyValue::Text(_)) => true,
            (KeyValue::Text(x), KeyValue::Text(y)) => str_lex_le(x.as_str(), y.as_str()),
            (KeyValue::Text(_), _) => false,
        }
    }

    /// An exact copy of the key.
    pub fn clone_key(&self) -> (r: KeyValue)
        ensures
            r == *self,
    {
        match self {
            KeyValue::Bool(b) => KeyValue::Bool(*b),
            KeyValue::Int(i) => KeyValue::Int(*i),
            KeyValue::Text(s) => KeyValue::Text(s.clone()),
        }
    }
}

/// Whether `a` orders lexicographically at or before `b`, comparing
/// characters by code point.
pub fn str_lex_le(a: &str, b: &str) -> (r: bool)
    ensures
        r == lex_le(a@, b@),
{
    let alen = a.unicode_len();
    let blen = b.unicode_len();
    let mut i: usize = 0;
    proof {
        assert(a@.skip(0) =~= a@);
        assert(b@.skip(0) =~= b@);
    }
    loop
        invariant
            alen == a@.len(),
            blen == b@.len(),
            i <= alen,
            i <= blen,
            lex_le(a@, b@) == lex_le(a@.skip(i as int), b@.skip(i as int)),
        decreases alen - i,
    {
        if i >= alen {
            return true;
        }
        if i >= blen {
            return false;
        }
        let ca = a.get_char(i);
        let cb = b.get_char(i);
        if (ca as u32) < (cb as u32) {
            return true;
        }
        if (cb as u32) < (ca as u32) {
            return false;
        }
        proof {
            assert(a@.skip(i as int).drop_first() =~= a@.skip(i + 1));
            assert(b@.skip(i as int).drop_first() =~= b@.skip(i + 1));
        }
        i = i + 1;
    }
}

/// The lexicographic order is total.
pub proof fn lemma_lex_le_total(a: Seq<char>, b: Seq<char>)
    ensures
        lex_le(a, b) || lex_le(b, a),
    decreases a.len(),
{
    if a.len() != 0 && b.len() != 0 && a[0] as u32 == b[0] as u32 {
        lemma_lex_le_total(a.drop_first(), b.drop_first());
    }
}

/// The lexicographic order is transitive.
pub proof fn lemma_lex_le_trans(a: Seq<char>, b: Seq<char>, c: Seq<char>)
    requires
        lex_le(a, b),
        lex_le(b, c),
    ensures
        lex_le(a, c),
    decreases a.len(),
{
    if a.len() != 0 && b.len() != 0 && c.len() != 0 && a[0] as u32 == b[0] as u32 && b[0] as u32
        == c[0] as u32 {
        lemma_lex_le_trans(a.drop_first(), b.drop_first(), c.drop_first());
    }
}

/// The key order is total.
pub proof fn lemma_key_le_total(a: KeyView, b: KeyView)
    ensures
        key_le(a, b) || key_le(b, a),
{
    match (a, b) {
        (KeyView::Text(x), KeyView::Text(y)) => lemma_lex_le_total(x, y),
        _ => {},
    }
}

/// The key order is transitive.
pub proof fn lemma_key_le_trans(a: KeyView, b: KeyView, c: KeyView)
    requires
        key_le(a, b),
        key_le(b, c),
    ensures
        key_le(a, c),
{
    match (a, b, c) {
        (KeyView::Text(x), KeyView::Text(y), KeyView::Text(z)) => lemma_lex_le_trans(x, y, z),
        _ => {},
    }
}

} // verus!
