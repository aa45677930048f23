//! Ordinal (code-point) ordering on strings, suffix tests, and path
//! separator normalization: the plain string operations that the loader
//! and matcher are specified over.
use vstd::prelude::*;

verus! {

/// `a` is strictly below `b` in code-point lexicographic order, comparing
/// from position `i` on (the first `i` characters are assumed equal).
pub open spec fn chars_lt_from(a: Seq<char>, b: Seq<char>, i: int) -> bool
    decreases a.len() - i,
{
    if i < 0 {
        false
    } else if i >= b.len() {
        false
    } else if i >= a.len() {
        true
    } else if (a[i] as u32) < (b[i] as u32) {
        true
    } else if (a[i] as u32) > (b[i] as u32) {
        false
    } else {
        chars_lt_from(a, b, i + 1)
    }
}

/// Strict code-point lexicographic order.
pub open spec fn chars_lt(a: Seq<char>, b: Seq<char>) -> bool {
    chars_lt_from(a, b, 0)
}

/// Code-point lexicographic order, the order the loader sorts record ids by.
pub open spec fn chars_le(a: Seq<char>, b: Seq<char>) -> bool {
    !chars_lt(b, a)
}

proof fn lemma_lt_asym_from(a: Seq<char>, b: Seq<char>, i: int)
    ensures
        !(chars_lt_from(a, b, i) && chars_lt_from(b, a, i)),
    decreases a.len() - i,
{
    if 0 <= i && i < a.len() && i < b.len() && (a[i] as u32) == (b[i] as u32) {
        lemma_lt_asym_from(a, b, i + 1);
    }
}

/// Two strings are never each strictly below the other.
pub proof fn lemma_chars_lt_asym(a: Seq<char>, b: Seq<char>)
    ensures
        !(chars_lt(a, b) && chars_lt(b, a)),
{
    lemma_lt_asym_from(a, b, 0);
}

/// Every string is below or equal to itself.
pub proof fn lemma_chars_le_refl(a: Seq<char>)
    ensures
        chars_le(a, a),
{
    lemma_chars_lt_asym(a, a);
}

/// The order is total: one of the two directions always holds.
pub proof fn lemma_chars_le_total(a: Seq<char>, b: Seq<char>)
    ensures
        chars_le(a, b) || chars_le(b, a),
{
    lemma_chars_lt_asym(a, b);
}

proof fn lemma_le_trans_from(a: Seq<char>, b: Seq<char>, c: Seq<char>, i: int)
    requires
        !chars_lt_from(b, a, i),
        !chars_lt_from(c, b, i),
    ensures
        !chars_lt_from(c, a, i),
    decreases a.len() - i,
{
    if i < 0 || i >= a.len() {
        // chars_lt_from(c, a, i) is false by definition
    } else if i >= c.len() {
        if i < b.len() {
            assert(chars_lt_from(c, b, i));
        } else {
            assert(chars_lt_from(b, a, i));
        }
    } else if i >= b.len() {
        assert(chars_lt_from(b, a, i));
    } else {
        let x = a[i] as u32;
        let y = b[i] as u32;
        let z = c[i] as u32;
        assert(y >= x);
        assert(z >= y);
        if z == x {
            lemma_le_trans_from(a, b, c, i + 1);
        }
    }
}

proof fn lemma_le_antisym_from(a: Seq<char>, b: Seq<char>, i: int)
    requires
        0 <= i <= a.len(),
        i <= b.len(),
        !chars_lt_from(a, b, i),
        !chars_lt_from(b, a, i),
    ensures
        a.len() == b.len(),
        forall|j: int| i <= j < a.len() ==> a[j] == b[j],
    decreases a.len() - i,
{
    if i == a.len() {
        if i < b.len() {
            assert(chars_lt_from(a, b, i));
        }
    } else if i == b.len() {
        assert(chars_lt_from(b, a, i));
    } else {
        assert((a[i] as u32) == (b[i] as u32));
        vstd::utf8::char_u32_cast(a[i], a[i] as u32);
        vstd::utf8::char_u32_cast(b[i], b[i] as u32);
        assert(a[i] == b[i]);
        lemma_le_antisym_from(a, b, i + 1);
    }
}

/// Two strings each below or equal to the other are the same string.
pub proof fn lemma_chars_le_antisym(a: Seq<char>, b: Seq<char>)
    requires
        chars_le(a, b),
        chars_le(b, a),
    ensures
        a == b,
{
    lemma_le_antisym_from(a, b, 0);
    assert(a =~= b);
}

/// The order is transitive.
pub proof fn lemma_chars_le_trans(a: Seq<char>, b: Seq<char>, c: Seq<char>)
    requires
        chars_le(a, b),
        chars_le(b, c),
    ensures
        chars_le(a, c),
{
    lemma_le_trans_from(a, b, c, 0);
}

/// Exec comparison realizing `chars_le` on string views.
pub fn str_le(a: &str, b: &str) -> (r: bool)
    ensures
        r == chars_le(a@, b@),
{
    let alen = a.unicode_len();
    let blen = b.unicode_len();
    let mut i: usize = 0;
    loop
        invariant
            i <= alen,
            i <= blen,
            alen == a@.len(),
            blen == b@.len(),
            forall|j: int| 0 <= j < i ==> a@[j] == b@[j],
            chars_lt_from(b@, a@, 0) == chars_lt_from(b@, a@, i as int),
        decreases alen - i,
    {
        if i >= alen {
            return true;
        }
        if i >= blen {
            return false;
        }
        let ca = a.get_char(i);
        let cb = b.get_char(i);
        if (ca as u32) < (cb as u32) {
            return true;
        }
        if (ca as u32) > (cb as u32) {
            return false;
        }
        i = i + 1;
    }
}

/// The view of `s` ends with the view of `suffix`.
pub open spec fn has_suffix(s: Seq<char>, suffix: Seq<char>) -> bool {
    s.len() >= suffix.len() && s.subrange(s.len() - suffix.len(), s.len() as int) == suffix
}

/// Exec suffix test realizing `has_suffix` on string views.
pub fn ends_with_str(s: &str, suffix: &str) -> (r: bool)
    ensures
        r == has_suffix(s@, suffix@),
{
    let slen = s.unicode_len();
    let tlen = suffix.unicode_len();
    if slen < tlen {
        assert(!has_suffix(s@, suffix@));
        return false;
    }
    let start = slen - tlen;
    let mut i: usize = 0;
    loop
        invariant
            i <= tlen,
            slen == s@.len(),
            tlen == suffix@.len(),
            start == slen - tlen,
            forall|j: int| 0 <= j < i ==> s@[start + j] == suffix@[j],
        decreases tlen - i,
    {
        if i >= tlen {
            assert(s@.subrange(s@.len() - suffix@.len(), s@.len() as int) =~= suffix@);
            return true;
        }
        let cs = s.get_char(start + i);
        let ct = suffix.get_char(i);
        if cs != ct {
            assert(s@.subrange(s@.len() - suffix@.len(), s@.len() as int)[i as int]
                != suffix@[i as int]);
            return false;
        }
        i = i + 1;
    }
}

/// Relies on std's String::push: appends the given character to the end of
/// the string, as its documentation states.
pub assume_specification[ String::push ](s: &mut String, c: char)
    ensures
        final(s)@ == old(s)@.push(c),
;

/// One character of a normalized path: backslashes become forward slashes.
pub open spec fn norm_char(c: char) -> char {
    if c == '\\' {
        '/'
    } else {
        c
    }
}

/// View of a path after separator normalization.
pub open spec fn normalized(s: Seq<char>) -> Seq<char> {
    s.map_values(|c: char| norm_char(c))
}

/// Replaces every backslash by a forward slash, the normalization applied
/// to candidate paths before any comparison.
pub fn normalize_separators(s: &str) -> (r: String)
    ensures
        r@ == normalized(s@),
{
    let len = s.unicode_len();
    let mut out = String::new();
    let mut i: usize = 0;
    while i < len
        invariant
            i <= len,
            len == s@.len(),
            out@ == normalized(s@.subrange(0, i as int)),
        decreases len - i,
    {
        let c = s.get_char(i);
        if c == '\\' {
            out.push('/');
        } else {
            out.push(c);
        }
        proof {
            assert(s@.subrange(0, i + 1) =~= s@.subrange(0, i as int).push(s@[i as int]));
            assert(normalized(s@.subrange(0, i + 1)) =~= normalized(
                s@.subrange(0, i as int),
            ).push(norm_char(s@[i as int])));
        }
        i = i + 1;
    }
    proof {
        assert(s@.subrange(0, len as int) =~= s@);
    }
    out
}

} // verus!
