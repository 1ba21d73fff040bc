//! The tag grammar resolver.
//!
//! A declared name has the shape `{namespace[;schema-location-hint]}prefix:local-name`
//! where every part except the local name is optional.  Matching is greedy in
//! the conventional left-to-right, longest-first order: the brace group is
//! taken when it can be, the namespace runs to the first `;`, the hint to the
//! last `}` that leaves a nonempty remainder, and the prefix to the last `:`
//! that leaves a nonempty local name.  Every nonempty string parses; the
//! whole string becomes the local name when no other part applies.

use vstd::prelude::*;

verus! {

/// Mathematical model of a parsed tag: namespace, schema-location hint,
/// prefix and local name, each a character sequence.
pub struct TagV {
    pub n: Option<Seq<char>>,
    pub l: Option<Seq<char>>,
    pub p: Option<Seq<char>>,
    pub e: Seq<char>,
}

/// Index of the first occurrence of `c` in `s` at or after `i`, or `s.len()`
/// if there is none.
pub open spec fn find_first(s: Seq<char>, c: char, i: int) -> int
    decreases s.len() - i,
{
    if i >= s.len() {
        s.len() as int
    } else if s[i] == c {
        i
    } else {
        find_first(s, c, i + 1)
    }
}

/// Largest index in `[lo, hi)` where `s` holds `c`, or `-1` if there is none.
pub open spec fn find_last(s: Seq<char>, c: char, lo: int, hi: int) -> int
    decreases hi - lo,
{
    if hi <= lo {
        -1
    } else if s[hi - 1] == c {
        hi - 1
    } else {
        find_last(s, c, lo, hi - 1)
    }
}

/// Splits a remainder into prefix and local name: the split is at the last
/// `:` that leaves both sides nonempty; without one the whole remainder is
/// the local name.
pub open spec fn parse_pe(r: Seq<char>) -> (Option<Seq<char>>, Seq<char>) {
    let j = find_last(r, ':', 1, r.len() - 1);
    if j >= 1 {
        (Some(r.subrange(0, j)), r.subrange(j + 1, r.len() as int))
    } else {
        (None, r)
    }
}

/// Full meaning of a declared name string under the tag grammar.
///
/// When the string opens with `{`, the brace group is matched greedily: the
/// namespace is everything up to the first `;` when a hint follows (the hint
/// then runs to the last `}` that leaves a nonempty remainder), otherwise up
/// to the last `}` that leaves a nonempty remainder.  The remainder, or the
/// whole string when no brace group matches, splits into prefix and local
/// name at its last usable `:`.
pub open spec fn parse_tag(s: Seq<char>) -> TagV
    recommends
        s.len() > 0,
{
    let len = s.len() as int;
    let f = find_first(s, ';', 0);
    if s.len() > 0 && s[0] == '{' {
        let m = find_last(s, '}', f + 1, len - 1);
        if f < len && f >= 2 && m >= f + 1 {
            let pe = parse_pe(s.subrange(m + 1, len));
            TagV { n: Some(s.subrange(1, f)), l: Some(s.subrange(f + 1, m)), p: pe.0, e: pe.1 }
        } else {
            let hi = if f == len { len - 1 } else { f };
            let k = find_last(s, '}', 2, hi);
            if k >= 2 {
                let pe = parse_pe(s.subrange(k + 1, len));
                TagV { n: Some(s.subrange(1, k)), l: None, p: pe.0, e: pe.1 }
            } else {
                let pe = parse_pe(s);
                TagV { n: None, l: None, p: pe.0, e: pe.1 }
            }
        }
    } else {
        let pe = parse_pe(s);
        TagV { n: None, l: None, p: pe.0, e: pe.1 }
    }
}

/// A parsed declared name: optional namespace, schema-location hint and
/// prefix, and the required local name.
pub struct Tag {
    pub n: Option<String>,
    pub l: Option<String>,
    pub p: Option<String>,
    pub e: String,
}

impl View for Tag {
    type V = TagV;

    open spec fn view(&self) -> TagV {
        TagV {
            n: match self.n {
                Some(ref x) => Some(x@),
                None => None,
            },
            l: match self.l {
                Some(ref x) => Some(x@),
                None => None,
            },
            p: match self.p {
                Some(ref x) => Some(x@),
                None => None,
            },
            e: self.e@,
        }
    }
}

proof fn lemma_find_first_from(s: Seq<char>, c: char, i: int, r: int)
    requires
        0 <= i <= r <= s.len(),
        forall|j: int| i <= j < r ==> s[j] != c,
        r == s.len() || s[r] == c,
    ensures
        find_first(s, c, i) == r,
    decreases r - i,
{
    if i < r {
        lemma_find_first_from(s, c, i + 1, r);
    }
}

proof fn lemma_find_last_found(s: Seq<char>, c: char, lo: int, hi: int, r: int)
    requires
        lo <= r < hi <= s.len(),
        s[r] == c,
        forall|j: int| r < j < hi ==> s[j] != c,
    ensures
        find_last(s, c, lo, hi) == r,
    decreases hi - r,
{
    if r < hi - 1 {
        lemma_find_last_found(s, c, lo, hi - 1, r);
    }
}

pub proof fn lemma_find_last_none(s: Seq<char>, c: char, lo: int, hi: int)
    requires
        forall|j: int| lo <= j < hi ==> s[j] != c,
    ensures
        find_last(s, c, lo, hi) == -1,
    decreases hi - lo,
{
    if lo < hi {
        lemma_find_last_none(s, c, lo, hi - 1);
    }
}

/// The characters of `s`, one vector entry per character.
pub fn chars_of(s: &str) -> (r: Vec<char>)
    ensures
        r@ == s@,
{
    let n = s.unicode_len();
    let mut r: Vec<char> = Vec::new();
    let mut i: usize = 0;
    while i < n
        invariant
            i <= n,
            n == s@.len(),
            r@ =~= s@.subrange(0, i as int),
        decreases n - i,
    {
        r.push(s.get_char(i));
        i = i + 1;
    }
    assert(r@ =~= s@);
    r
}

/// Exec scan for the first occurrence of `c`, matching `find_first`.
pub(crate) fn scan_first(v: &Vec<char>, c: char) -> (r: usize)
    ensures
        r as int == find_first(v@, c, 0),
        r <= v.len(),
{
    let mut i: usize = 0;
    while i < v.len()
        invariant
            i <= v.len(),
            forall|j: int| 0 <= j < i ==> v@[j] != c,
        decreases v.len() - i,
    {
        if v[i] == c {
            proof {
                lemma_find_first_from(v@, c, 0, i as int);
            }
            return i;
        }
        i = i + 1;
    }
    proof {
        lemma_find_first_from(v@, c, 0, v@.len() as int);
    }
    i
}

/// Exec scan for the last occurrence of `c` in `[lo, hi)`, matching `find_last`.
pub(crate) fn scan_last(v: &Vec<char>, c: char, lo: usize, hi: usize) -> (r: Option<usize>)
    requires
        lo <= hi <= v.len(),
    ensures
        match r {
            Some(k) => {
                &&& lo <= k < hi
                &&& v@[k as int] == c
                &&& forall|j: int| k < j < hi ==> v@[j] != c
                &&& k as int == find_last(v@, c, lo as int, hi as int)
            },
            None => {
                &&& forall|j: int| lo <= j < hi ==> v@[j] != c
                &&& find_last(v@, c, lo as int, hi as int) == -1
            },
        },
{
    let mut i: usize = hi;
    while i > lo
        invariant
            lo <= i <= hi <= v.len(),
            forall|j: int| i <= j < hi ==> v@[j] != c,
        decreases i,
    {
        i = i - 1;
        if v[i] == c {
            proof {
                lemma_find_last_found(v@, c, lo as int, hi as int, i as int);
            }
            return Some(i);
        }
    }
    proof {
        lemma_find_last_none(v@, c, lo as int, hi as int);
    }
    None
}

/// The substring of `s` over the character range `[from, to)`, owned.
fn substring_owned(s: &str, from: usize, to: usize) -> (r: String)
    requires
        from <= to <= s@.len(),
    ensures
        r@ == s@.subrange(from as int, to as int),
{
    s.substring_char(from, to).to_owned()
}

impl Tag {
    /// Parses a declared name string.  Every nonempty string parses; an empty
    /// declared name is a schema-author error and is ruled out.
    pub fn new(s: &str) -> (t: Tag)
        requires
            s@.len() > 0,
        ensures
            t@ == parse_tag(s@),
    {
        let cs = chars_of(s);
        let len = cs.len();
        let f = scan_first(&cs, ';');
        if cs[0] == '{' {
            if f < len && f >= 2 && f + 1 <= len - 1 {
                if let Some(m) = scan_last(&cs, '}', f + 1, len - 1) {
                    let (p, e) = Self::split_pe(s, m + 1, len);
                    return Tag {
                        n: Some(substring_owned(s, 1, f)),
                        l: Some(substring_owned(s, f + 1, m)),
                        p,
                        e,
                    };
                }
            }
            let hi = if f == len { len - 1 } else { f };
            let lo = if hi < 2 { hi } else { 2 };
            let k = scan_last(&cs, '}', lo, hi);
            proof {
                if hi < 2 {
                    lemma_find_last_none(s@, '}', 2, hi as int);
                }
            }
            match k {
                Some(kk) if kk >= 2 => {
                    let (p, e) = Self::split_pe(s, kk + 1, len);
                    Tag { n: Some(substring_owned(s, 1, kk)), l: None, p, e }
                }
                _ => {
                    proof {
                        assert(s@.subrange(0, len as int) =~= s@);
                    }
                    let (p, e) = Self::split_pe(s, 0, len);
                    Tag { n: None, l: None, p, e }
                }
            }
        } else {
            proof {
                assert(s@.subrange(0, len as int) =~= s@);
            }
            let (p, e) = Self::split_pe(s, 0, len);
            Tag { n: None, l: None, p, e }
        }
    }

    /// Splits the remainder `s[from..to)` into prefix and local name,
    /// matching `parse_pe` of that remainder.
    fn split_pe(s: &str, from: usize, to: usize) -> (r: (Option<String>, String))
        requires
            from <= to <= s@.len(),
        ensures
            ({
                let pe = parse_pe(s@.subrange(from as int, to as int));
                &&& match r.0 {
                    Some(ref x) => pe.0 == Some(x@),
                    None => pe.0 is None,
                }
                &&& r.1@ == pe.1
            }),
    {
        let cs = chars_of(s);
        let ghost rest = s@.subrange(from as int, to as int);
        if to - from >= 2 {
            let j = scan_last(&cs, ':', from + 1, to - 1);
            proof {
                if let Some(k) = j {
                    let ki = k as int - from as int;
                    assert(rest[ki] == ':');
                    assert forall|jj: int| ki < jj && jj < rest.len() - 1 implies rest[jj]
                        != ':' by {
                        assert(rest[jj] == s@[from + jj]);
                    }
                    lemma_find_last_found(
                        rest,
                        ':',
                        1,
                        rest.len() - 1,
                        k as int - from as int,
                    );
                } else {
                    assert forall|jj: int| 1 <= jj < rest.len() - 1 implies rest[jj] != ':' by {
                        assert(rest[jj] == s@[from + jj]);
                    }
                    lemma_find_last_none(rest, ':', 1, rest.len() - 1);
                }
            }
            match j {
                Some(k) => {
                    let p = substring_owned(s, from, k);
                    let e = substring_owned(s, k + 1, to);
                    proof {
                        assert(p@ =~= rest.subrange(0, k as int - from as int));
                        assert(e@ =~= rest.subrange(k as int - from as int + 1, rest.len() as int));
                    }
                    (Some(p), e)
                }
                None => {
                    let e = substring_owned(s, from, to);
                    (None, e)
                }
            }
        } else {
            proof {
                lemma_find_last_none(rest, ':', 1, rest.len() - 1);
            }
            let e = substring_owned(s, from, to);
            (None, e)
        }
    }

    /// Parses a declared name held in an owned string.
    pub fn from_cow(s: &String) -> (t: Tag)
        requires
            s@.len() > 0,
        ensures
            t@ == parse_tag(s@),
    {
        Tag::new(s.as_str())
    }

    /// Parses a compile-time-constant declared name.
    pub fn from_static(s: &'static str) -> (t: Tag)
        requires
            s@.len() > 0,
        ensures
            t@ == parse_tag(s@),
    {
        Tag::new(s)
    }
}

} // verus!
