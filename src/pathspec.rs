use vstd::prelude::*;

use crate::bytes::{bytes_eq, has_prefix, starts_with, sub_bytes};

verus! {

/// The magic of a pathspec, as flags.
#[derive(Debug, Clone, Copy, PartialEq, Eq, Structural)]
pub struct MagicSignature {
    pub top: bool,
    pub icase: bool,
    pub exclude: bool,
}

impl MagicSignature {
    /// No magic at all.
    pub fn empty() -> (r: MagicSignature)
        ensures
            r == no_magic(),
    {
        MagicSignature { top: false, icase: false, exclude: false }
    }
}

/// How the path of a pattern is matched.
#[derive(Debug, Clone, Copy, PartialEq, Eq, Structural)]
pub enum SearchMode {
    /// Shell globbing, where `*` matches across directories.
    ShellGlob,
    /// The path is taken literally.
    Literal,
    /// Globbing where `*` stays within one directory.
    PathAwareGlob,
}

/// A parsed pathspec: its path, its magic, its search mode, and the attribute
/// specification it gave (with escaped commas unescaped; empty if none).
#[derive(Debug)]
pub struct Pattern {
    pub path: Vec<u8>,
    pub signature: MagicSignature,
    pub search_mode: SearchMode,
    pub attributes: Vec<u8>,
}

/// Why a pathspec was refused.
#[derive(Debug)]
pub enum Error {
    EmptyString,
    InvalidKeyword { found_keyword: Vec<u8> },
    Unimplemented { found_short_keyword: char },
    MissingClosingParenthesis { pathspec: Vec<u8> },
    EmptyAttribute,
    IncompatibleSearchModes,
    MultipleAttributeSpecifications,
}

pub enum ErrorView {
    EmptyString,
    InvalidKeyword { found_keyword: Seq<u8> },
    Unimplemented { found_short_keyword: char },
    MissingClosingParenthesis { pathspec: Seq<u8> },
    EmptyAttribute,
    IncompatibleSearchModes,
    MultipleAttributeSpecifications,
}

impl View for Error {
    type V = ErrorView;

    open spec fn view(&self) -> ErrorView {
        match self {
            Error::EmptyString => ErrorView::EmptyString,
            Error::InvalidKeyword { found_keyword } => ErrorView::InvalidKeyword { found_keyword: found_keyword@ },
            Error::Unimplemented { found_short_keyword } => ErrorView::Unimplemented {
                found_short_keyword: *found_short_keyword,
            },
            Error::MissingClosingParenthesis { pathspec } => ErrorView::MissingClosingParenthesis {
                pathspec: pathspec@,
            },
            Error::EmptyAttribute => ErrorView::EmptyAttribute,
            Error::IncompatibleSearchModes => ErrorView::IncompatibleSearchModes,
            Error::MultipleAttributeSpecifications => ErrorView::MultipleAttributeSpecifications,
        }
    }
}

/// What the magic of a pattern amounts to.
pub struct MagicState {
    pub signature: MagicSignature,
    pub search_mode: SearchMode,
    pub attributes: Seq<u8>,
}

pub struct PatternView {
    pub path: Seq<u8>,
    pub signature: MagicSignature,
    pub search_mode: SearchMode,
    pub attributes: Seq<u8>,
}

impl View for Pattern {
    type V = PatternView;

    open spec fn view(&self) -> PatternView {
        PatternView {
            path: self.path@,
            signature: self.signature,
            search_mode: self.search_mode,
            attributes: self.attributes@,
        }
    }
}

pub open spec fn magic_of(p: PatternView) -> MagicState {
    MagicState { signature: p.signature, search_mode: p.search_mode, attributes: p.attributes }
}

pub open spec fn no_magic() -> MagicSignature {
    MagicSignature { top: false, icase: false, exclude: false }
}

pub open spec fn sig_or(a: MagicSignature, b: MagicSignature) -> MagicSignature {
    MagicSignature { top: a.top || b.top, icase: a.icase || b.icase, exclude: a.exclude || b.exclude }
}

// Bytes of the pathspec syntax.
pub open spec fn is_short_magic(b: u8) -> bool {
    b == 0x2f /* / */ || b == 0x5e /* ^ */ || b == 0x21  /* ! */
}

/// Short magic that git knows and this parser does not implement.
pub open spec fn is_unimplemented_short(b: u8) -> bool {
    b == 0x22 || b == 0x23 || b == 0x25 || b == 0x26 || b == 0x27 || b == 0x2c || b == 0x2d || b == 0x3b
        || b == 0x3c || b == 0x3d || b == 0x3e || b == 0x40 || b == 0x5f || b == 0x60 || b == 0x7e
}

/// The first position from `c` on that holds no short magic.
pub open spec fn short_end(s: Seq<u8>, c: int) -> int
    decreases s.len() - c,
{
    if c < 0 || c >= s.len() {
        c
    } else if is_short_magic(s[c]) {
        short_end(s, c + 1)
    } else {
        c
    }
}

/// The magic that the short magic between `c` and `e` stands for.
pub open spec fn short_flags(s: Seq<u8>, c: int, e: int) -> MagicSignature {
    MagicSignature {
        top: exists|i: int| c <= i < e && s[i] == 0x2f,
        icase: false,
        exclude: exists|i: int| c <= i < e && (s[i] == 0x5e || s[i] == 0x21),
    }
}

/// Short magic from position `c` on: the magic it adds and the position
/// after it (after a closing `:`), or the refusal of unimplemented magic.
pub open spec fn short_result(s: Seq<u8>, c: int) -> Result<(MagicSignature, int), ErrorView> {
    let e = short_end(s, c);
    let flags = short_flags(s, c, e);
    if e >= s.len() {
        Ok((flags, e))
    } else if s[e] == 0x3a {
        Ok((flags, e + 1))
    } else if is_unimplemented_short(s[e]) {
        Err(ErrorView::Unimplemented { found_short_keyword: s[e] as char })
    } else {
        Ok((flags, e))
    }
}

/// Whether position `q` of `s` splits it at `c`: `c` stands there, not
/// escaped by a backslash before it, and not right after another split.
pub open spec fn is_split(s: Seq<u8>, c: u8, q: int) -> bool
    decreases q,
{
    if q < 1 || q >= s.len() {
        false
    } else {
        s[q] == c && s[q - 1] != 0x5c && !is_split(s, c, q - 1)
    }
}

/// The split positions below `n`, in order.
pub open spec fn splits_upto(s: Seq<u8>, c: u8, n: int) -> Seq<int>
    decreases n,
{
    if n <= 0 {
        seq![]
    } else {
        let r = splits_upto(s, c, n - 1);
        if is_split(s, c, n - 1) {
            r.push(n - 1)
        } else {
            r
        }
    }
}

/// The `k`-th piece of `s` between the split positions `pts`.
pub open spec fn piece(s: Seq<u8>, pts: Seq<int>, k: int) -> Seq<u8> {
    s.subrange(
        if k == 0 {
            0
        } else {
            pts[k - 1] + 1
        },
        if k == pts.len() {
            s.len() as int
        } else {
            pts[k]
        },
    )
}

/// `s` cut at each split position of `c`.
pub open spec fn split_pieces(s: Seq<u8>, c: u8) -> Seq<Seq<u8>> {
    let pts = splits_upto(s, c, s.len() as int);
    Seq::new(pts.len() + 1, |k: int| piece(s, pts, k))
}

/// `s` with every non-overlapping occurrence of `needle`, leftmost first,
/// replaced by `with`.
pub open spec fn replaced(s: Seq<u8>, needle: Seq<u8>, with: Seq<u8>) -> Seq<u8>
    decreases s.len(),
{
    if needle.len() == 0 || s.len() < needle.len() {
        s
    } else if s.subrange(0, needle.len() as int) == needle {
        with + replaced(s.subrange(needle.len() as int, s.len() as int), needle, with)
    } else {
        seq![s[0]] + replaced(s.subrange(1, s.len() as int), needle, with)
    }
}

/// The position of the first `b` in `s` from `i` on.
pub open spec fn index_of_from(s: Seq<u8>, b: u8, i: int) -> Option<int>
    decreases s.len() - i,
{
    if i < 0 || i >= s.len() {
        None
    } else if s[i] == b {
        Some(i)
    } else {
        index_of_from(s, b, i + 1)
    }
}

pub open spec fn kw_attr() -> Seq<u8> {
    seq![0x61u8, 0x74u8, 0x74u8, 0x72u8]
}

pub open spec fn kw_top() -> Seq<u8> {
    seq![0x74u8, 0x6fu8, 0x70u8]
}

pub open spec fn kw_icase() -> Seq<u8> {
    seq![0x69u8, 0x63u8, 0x61u8, 0x73u8, 0x65u8]
}

pub open spec fn kw_exclude() -> Seq<u8> {
    seq![0x65u8, 0x78u8, 0x63u8, 0x6cu8, 0x75u8, 0x64u8, 0x65u8]
}

pub open spec fn kw_literal() -> Seq<u8> {
    seq![0x6cu8, 0x69u8, 0x74u8, 0x65u8, 0x72u8, 0x61u8, 0x6cu8]
}

pub open spec fn kw_glob() -> Seq<u8> {
    seq![0x67u8, 0x6cu8, 0x6fu8, 0x62u8]
}

/// `attr:`
pub open spec fn kw_attr_prefix() -> Seq<u8> {
    seq![0x61u8, 0x74u8, 0x74u8, 0x72u8, 0x3au8]
}

/// `prefix:`
pub open spec fn kw_prefix_prefix() -> Seq<u8> {
    seq![0x70u8, 0x72u8, 0x65u8, 0x66u8, 0x69u8, 0x78u8, 0x3au8]
}

/// An attribute specification with its escaped commas unescaped, or its
/// refusal when empty.
pub open spec fn attributes_result(a: Seq<u8>) -> Result<Seq<u8>, ErrorView> {
    if a.len() == 0 {
        Err(ErrorView::EmptyAttribute)
    } else {
        Ok(replaced(a, seq![0x5cu8, 0x2cu8], seq![0x2cu8]))
    }
}

/// The magic after one long keyword.
pub open spec fn apply_keyword(st: MagicState, kw: Seq<u8>) -> Result<MagicState, ErrorView> {
    if kw == kw_attr() {
        Ok(st)
    } else if kw == kw_top() {
        Ok(MagicState { signature: MagicSignature { top: true, ..st.signature }, ..st })
    } else if kw == kw_icase() {
        Ok(MagicState { signature: MagicSignature { icase: true, ..st.signature }, ..st })
    } else if kw == kw_exclude() {
        Ok(MagicState { signature: MagicSignature { exclude: true, ..st.signature }, ..st })
    } else if kw == kw_literal() {
        if st.search_mode == SearchMode::PathAwareGlob {
            Err(ErrorView::IncompatibleSearchModes)
        } else {
            Ok(MagicState { search_mode: SearchMode::Literal, ..st })
        }
    } else if kw == kw_glob() {
        if st.search_mode == SearchMode::Literal {
            Err(ErrorView::IncompatibleSearchModes)
        } else {
            Ok(MagicState { search_mode: SearchMode::PathAwareGlob, ..st })
        }
    } else if has_prefix(kw, kw_attr_prefix()) {
        if st.attributes.len() == 0 {
            match attributes_result(kw.subrange(5, kw.len() as int)) {
                Ok(a) => Ok(MagicState { attributes: a, ..st }),
                Err(e) => Err(e),
            }
        } else {
            Err(ErrorView::MultipleAttributeSpecifications)
        }
    } else if has_prefix(kw, kw_prefix_prefix()) {
        Ok(st)
    } else {
        Err(ErrorView::InvalidKeyword { found_keyword: kw })
    }
}

/// The magic after the long keywords `kws`, in order; the first refusal wins.
pub open spec fn apply_keywords(st: MagicState, kws: Seq<Seq<u8>>) -> Result<MagicState, ErrorView>
    decreases kws.len(),
{
    if kws.len() == 0 {
        Ok(st)
    } else {
        match apply_keywords(st, kws.drop_last()) {
            Ok(s) => apply_keyword(s, kws.last()),
            Err(e) => Err(e),
        }
    }
}

/// Long magic after the `(` before position `c`: the magic and the position
/// after the first `)` of `s`, or a refusal.
pub open spec fn long_result(s: Seq<u8>, c: int, st: MagicState) -> Result<(MagicState, int), ErrorView> {
    match index_of_from(s, 0x29, 0) {
        None => Err(ErrorView::MissingClosingParenthesis { pathspec: s }),
        Some(end) => {
            let kws = s.subrange(c, end);
            if kws.len() == 0 {
                Ok((st, end + 1))
            } else {
                match apply_keywords(st, split_pieces(kws, 0x2c)) {
                    Ok(n) => Ok((n, end + 1)),
                    Err(e) => Err(e),
                }
            }
        },
    }
}

/// The pattern that `s` describes.
pub open spec fn parse_pattern(s: Seq<u8>) -> Result<PatternView, ErrorView> {
    let plain = MagicState { signature: no_magic(), search_mode: SearchMode::ShellGlob, attributes: seq![] };
    if s.len() == 0 {
        Err(ErrorView::EmptyString)
    } else if s[0] != 0x3a {
        Ok(PatternView { path: s, signature: no_magic(), search_mode: SearchMode::ShellGlob, attributes: seq![] })
    } else {
        match short_result(s, 1) {
            Err(e) => Err(e),
            Ok((sig, c)) => if c < s.len() && s[c] == 0x28 {
                match long_result(s, c + 1, MagicState { signature: sig, ..plain }) {
                    Err(e) => Err(e),
                    Ok((st, c2)) => Ok(
                        PatternView {
                            path: s.subrange(c2, s.len() as int),
                            signature: st.signature,
                            search_mode: st.search_mode,
                            attributes: st.attributes,
                        },
                    ),
                }
            } else {
                Ok(
                    PatternView {
                        path: s.subrange(c, s.len() as int),
                        signature: sig,
                        search_mode: SearchMode::ShellGlob,
                        attributes: seq![],
                    },
                )
            },
        }
    }
}

/// Relies on bstr's `ByteSlice::find_byte`: the position of the first
/// occurrence of `byte`, if any.
#[verifier::external_body]
fn find_byte(input: &[u8], byte: u8) -> (r: Option<usize>)
    ensures
        match r {
            Some(i) => index_of_from(input@, byte, 0) == Some(i as int),
            None => index_of_from(input@, byte, 0) is None,
        },
{
    bstr::ByteSlice::find_byte(input, byte)
}

/// Relies on bstr's `ByteSlice::replace`: every non-overlapping occurrence
/// of `needle`, leftmost first, replaced by `replacement`.
#[verifier::external_body]
fn replace_all(input: &[u8], needle: &[u8], replacement: &[u8]) -> (r: Vec<u8>)
    requires
        needle@.len() > 0,
    ensures
        r@ == replaced(input@, needle@, replacement@),
{
    bstr::ByteSlice::replace(input, needle, replacement)
}


proof fn lemma_short_end(s: Seq<u8>, c: int)
    requires
        0 <= c <= s.len(),
    ensures
        c <= short_end(s, c) <= s.len(),
        forall|i: int| c <= i < short_end(s, c) ==> is_short_magic(#[trigger] s[i]),
        short_end(s, c) < s.len() ==> !is_short_magic(s[short_end(s, c)]),
    decreases s.len() - c,
{
    if c < s.len() && is_short_magic(s[c]) {
        lemma_short_end(s, c + 1);
    }
}

proof fn lemma_index_of_from(s: Seq<u8>, b: u8, j: int)
    requires
        0 <= j,
    ensures
        index_of_from(s, b, j) matches Some(i) ==> j <= i < s.len() && s[i] == b,
    decreases s.len() - j,
{
    if j < s.len() && s[j] != b {
        lemma_index_of_from(s, b, j + 1);
    }
}

/// Once a keyword is refused, the later ones do not matter.
proof fn lemma_refusal_sticks(st: MagicState, kws: Seq<Seq<u8>>, n: int)
    requires
        0 <= n <= kws.len(),
        apply_keywords(st, kws.take(n)) is Err,
    ensures
        apply_keywords(st, kws) == apply_keywords(st, kws.take(n)),
    decreases kws.len(),
{
    if n == kws.len() {
        assert(kws.take(n) =~= kws);
    } else {
        assert(kws.drop_last().take(n) =~= kws.take(n));
        lemma_refusal_sticks(st, kws.drop_last(), n);
    }
}

/// Splits `input` at each `split_char` that is not escaped by a backslash
/// before it and does not directly follow another split; a split character
/// at the very start does not split. There is always at least one piece.
pub fn split_on_non_escaped_char(input: &[u8], split_char: u8) -> (r: Vec<Vec<u8>>)
    ensures
        r@.map_values(|v: Vec<u8>| v@) == split_pieces(input@, split_char),
{
    let ghost s = input@;
    let mut keywords: Vec<Vec<u8>> = Vec::new();
    let mut last: usize = 0;
    let mut prev_split = false;
    let mut q: usize = 1;
    assert(splits_upto(s, split_char, 1) =~= Seq::<int>::empty()) by {
        assert(splits_upto(s, split_char, 0) =~= Seq::<int>::empty());
        assert(!is_split(s, split_char, 0));
    }
    while q < input.len()
        invariant
            s == input@,
            1 <= q,
            q <= s.len() || q == 1,
            prev_split == is_split(s, split_char, q - 1),
            keywords@.len() == splits_upto(s, split_char, q as int).len(),
            forall|k: int|
                0 <= k < keywords@.len() ==> (#[trigger] keywords@[k])@ == piece(
                    s,
                    splits_upto(s, split_char, q as int),
                    k,
                ),
            last == (if splits_upto(s, split_char, q as int).len() == 0 {
                0
            } else {
                splits_upto(s, split_char, q as int).last() + 1
            }),
            last <= q,
        decreases s.len() - q,
    {
        let ghost pts = splits_upto(s, split_char, q as int);
        if !prev_split && input[q] == split_char && input[q - 1] != 0x5c {
            assert(is_split(s, split_char, q as int));
            let kw = sub_bytes(input, last, q);
            keywords.push(kw);
            last = q + 1;
            prev_split = true;
            assert(splits_upto(s, split_char, q + 1) == pts.push(q as int));
            assert forall|k: int| 0 <= k < keywords@.len() implies (#[trigger] keywords@[k])@ == piece(
                s,
                splits_upto(s, split_char, q + 1),
                k,
            ) by {
                if k < pts.len() {
                    assert(piece(s, pts.push(q as int), k) == piece(s, pts, k));
                }
            }
        } else {
            assert(!is_split(s, split_char, q as int));
            prev_split = false;
        }
        q += 1;
    }
    let ghost pts = splits_upto(s, split_char, s.len() as int);
    assert(splits_upto(s, split_char, q as int) == pts) by {
        if s.len() == 0 {
            assert(splits_upto(s, split_char, 1) == splits_upto(s, split_char, 0));
        }
    }
    let rest = sub_bytes(input, last, input.len());
    keywords.push(rest);
    assert(keywords@.map_values(|v: Vec<u8>| v@) =~= split_pieces(s, split_char));
    keywords
}

fn is_unimplemented_magic(b: u8) -> (r: bool)
    ensures
        r == is_unimplemented_short(b),
{
    b == 0x22 || b == 0x23 || b == 0x25 || b == 0x26 || b == 0x27 || b == 0x2c || b == 0x2d || b == 0x3b
        || b == 0x3c || b == 0x3d || b == 0x3e || b == 0x40 || b == 0x5f || b == 0x60 || b == 0x7e
}

/// Reads short magic (`/` for top, `^` or `!` for exclude) from `cursor` on,
/// up to and including a closing `:`, adds it to `p`'s signature and leaves
/// `cursor` after it; refuses short magic that is not implemented.
pub fn parse_short_keywords(input: &[u8], p: &mut Pattern, cursor: &mut usize) -> (r: Result<(), Error>)
    ensures
        match short_result(input@, *old(cursor) as int) {
            Ok((sig, c)) => r is Ok && *final(cursor) == c && final(p)@ == (PatternView {
                signature: sig_or(old(p)@.signature, sig),
                ..old(p)@
            }),
            Err(e) => r matches Err(x) && x@ == e,
        },
        r is Ok ==> forall|i: int| *old(cursor) <= i < *final(cursor) ==> input@[i] != 0x29,
{
    let ghost s = input@;
    let ghost c0 = *cursor as int;
    let mut top = false;
    let mut exclude = false;
    if *cursor >= input.len() {
        assert(short_flags(s, c0, c0) == no_magic());
        return Ok(());
    }
    proof {
        lemma_short_end(s, c0);
    }
    while *cursor < input.len()
        invariant
            s == input@,
            c0 <= *cursor <= s.len(),
            c0 <= short_end(s, c0) <= s.len(),
            *cursor <= short_end(s, c0),
            forall|i: int| c0 <= i < short_end(s, c0) ==> is_short_magic(#[trigger] s[i]),
            short_end(s, c0) < s.len() ==> !is_short_magic(s[short_end(s, c0)]),
            top == (exists|i: int| c0 <= i < *cursor && s[i] == 0x2f),
            exclude == (exists|i: int| c0 <= i < *cursor && (s[i] == 0x5e || s[i] == 0x21)),
            *p == *old(p),
            c0 == *old(cursor) as int,
        decreases s.len() - *cursor,
    {
        let b = input[*cursor];
        let ghost at = *cursor as int;
        if b == 0x2f {
            top = true;
            *cursor = *cursor + 1;
            assert(s[at] == 0x2f);
        } else if b == 0x5e || b == 0x21 {
            exclude = true;
            *cursor = *cursor + 1;
            assert(s[at] == 0x5e || s[at] == 0x21);
        } else {
            assert(short_end(s, c0) == at);
            if b == 0x3a {
                *cursor = *cursor + 1;
            } else if is_unimplemented_magic(b) {
                assert(short_result(s, c0) == Err::<(MagicSignature, int), ErrorView>(
                    ErrorView::Unimplemented { found_short_keyword: b as char },
                ));
                let ch = b as char;
                assert(ch == s[at] as char);
                return Err(Error::Unimplemented { found_short_keyword: ch });
            }
            p.signature.top = p.signature.top || top;
            p.signature.exclude = p.signature.exclude || exclude;
            assert(short_flags(s, c0, at) == MagicSignature { top, icase: false, exclude });
            assert(short_result(s, c0) == Ok::<(MagicSignature, int), ErrorView>(
                (MagicSignature { top, icase: false, exclude }, *cursor as int),
            ));
            return Ok(());
        }
    }
    p.signature.top = p.signature.top || top;
    p.signature.exclude = p.signature.exclude || exclude;
    Ok(())
}

/// An attribute specification with escaped commas unescaped; an empty one
/// is refused.
pub fn parse_attributes(input: &[u8]) -> (r: Result<Vec<u8>, Error>)
    ensures
        match attributes_result(input@) {
            Ok(a) => r matches Ok(v) && v@ == a,
            Err(e) => r matches Err(x) && x@ == e,
        },
{
    if input.len() == 0 {
        return Err(Error::EmptyAttribute);
    }
    let needle: [u8; 2] = [0x5c, 0x2c];
    let with: [u8; 1] = [0x2c];
    assert(needle@ =~= seq![0x5cu8, 0x2cu8]);
    assert(with@ =~= seq![0x2cu8]);
    Ok(replace_all(input, &needle, &with))
}

/// Applies one long keyword to `p`.
fn apply_long_keyword(p: &mut Pattern, kw: &[u8]) -> (r: Result<(), Error>)
    ensures
        match apply_keyword(magic_of(old(p)@), kw@) {
            Ok(st) => r is Ok && final(p)@ == (PatternView {
                signature: st.signature,
                search_mode: st.search_mode,
                attributes: st.attributes,
                path: old(p)@.path,
            }),
            Err(e) => r matches Err(x) && x@ == e,
        },
{
    let attr: [u8; 4] = [0x61, 0x74, 0x74, 0x72];
    let top: [u8; 3] = [0x74, 0x6f, 0x70];
    let icase: [u8; 5] = [0x69, 0x63, 0x61, 0x73, 0x65];
    let exclude: [u8; 7] = [0x65, 0x78, 0x63, 0x6c, 0x75, 0x64, 0x65];
    let literal: [u8; 7] = [0x6c, 0x69, 0x74, 0x65, 0x72, 0x61, 0x6c];
    let glob: [u8; 4] = [0x67, 0x6c, 0x6f, 0x62];
    let attr_prefix: [u8; 5] = [0x61, 0x74, 0x74, 0x72, 0x3a];
    let prefix_prefix: [u8; 7] = [0x70, 0x72, 0x65, 0x66, 0x69, 0x78, 0x3a];
    assert(attr@ =~= kw_attr());
    assert(top@ =~= kw_top());
    assert(icase@ =~= kw_icase());
    assert(exclude@ =~= kw_exclude());
    assert(literal@ =~= kw_literal());
    assert(glob@ =~= kw_glob());
    assert(attr_prefix@ =~= kw_attr_prefix());
    assert(prefix_prefix@ =~= kw_prefix_prefix());
    if bytes_eq(kw, &attr) {
        Ok(())
    } else if bytes_eq(kw, &top) {
        p.signature.top = true;
        Ok(())
    } else if bytes_eq(kw, &icase) {
        p.signature.icase = true;
        Ok(())
    } else if bytes_eq(kw, &exclude) {
        p.signature.exclude = true;
        Ok(())
    } else if bytes_eq(kw, &literal) {
        match p.search_mode {
            SearchMode::PathAwareGlob => Err(Error::IncompatibleSearchModes),
            _ => {
                p.search_mode = SearchMode::Literal;
                Ok(())
            },
        }
    } else if bytes_eq(kw, &glob) {
        match p.search_mode {
            SearchMode::Literal => Err(Error::IncompatibleSearchModes),
            _ => {
                p.search_mode = SearchMode::PathAwareGlob;
                Ok(())
            },
        }
    } else if starts_with(kw, &attr_prefix) {
        if p.attributes.len() == 0 {
            let spec_bytes = sub_bytes(kw, 5, kw.len());
            match parse_attributes(spec_bytes.as_slice()) {
                Ok(a) => {
                    p.attributes = a;
                    Ok(())
                },
                Err(e) => Err(e),
            }
        } else {
            Err(Error::MultipleAttributeSpecifications)
        }
    } else if starts_with(kw, &prefix_prefix) {
        Ok(())
    } else {
        Err(Error::InvalidKeyword { found_keyword: crate::bytes::copy_bytes(kw) })
    }
}

/// Reads long magic, `keyword,keyword,...)`, from `cursor` on (right after
/// the `(`), applies it to `p` and leaves `cursor` after the `)`.
fn parse_long_keywords(input: &[u8], p: &mut Pattern, cursor: &mut usize) -> (r: Result<(), Error>)
    requires
        *old(cursor) <= input@.len(),
        forall|i: int| 0 <= i < *old(cursor) ==> input@[i] != 0x29,
    ensures
        match long_result(input@, *old(cursor) as int, magic_of(old(p)@)) {
            Ok((st, c)) => r is Ok && *final(cursor) == c && final(p)@ == (PatternView {
                signature: st.signature,
                search_mode: st.search_mode,
                attributes: st.attributes,
                path: old(p)@.path,
            }),
            Err(e) => r matches Err(x) && x@ == e,
        },
        r is Ok ==> *final(cursor) <= input@.len(),
{
    let ghost s = input@;
    let ghost st0 = magic_of(p@);
    let end = match find_byte(input, 0x29) {
        None => {
            return Err(Error::MissingClosingParenthesis { pathspec: crate::bytes::copy_bytes(input) });
        },
        Some(end) => end,
    };
    proof {
        lemma_index_of_from(s, 0x29, 0);
    }
    let n = input.len();
    assert(end < n);
    let kws = sub_bytes(input, *cursor, end);
    *cursor = end + 1;
    if kws.len() == 0 {
        return Ok(());
    }
    let keywords = split_on_non_escaped_char(kws.as_slice(), 0x2c);
    let ghost pieces = split_pieces(kws@, 0x2c);
    let mut i: usize = 0;
    while i < keywords.len()
        invariant
            pieces == keywords@.map_values(|v: Vec<u8>| v@),
            i <= keywords@.len(),
            apply_keywords(st0, pieces.take(i as int)) == Ok::<MagicState, ErrorView>(magic_of(p@)),
            p@.path == old(p)@.path,
            st0 == magic_of(old(p)@),
            *cursor == end + 1,
            end < s.len(),
            s == input@,
            index_of_from(s, 0x29, 0) == Some(end as int),
            kws@ == s.subrange(*old(cursor) as int, end as int),
            kws@.len() > 0,
            pieces == split_pieces(kws@, 0x2c),
        decreases keywords@.len() - i,
    {
        assert(pieces.take(i + 1).drop_last() =~= pieces.take(i as int));
        assert(pieces.take(i + 1).last() == keywords@[i as int]@);
        let ghost before = p@;
        match apply_long_keyword(p, keywords[i].as_slice()) {
            Ok(()) => {},
            Err(e) => {
                proof {
                    assert(apply_keywords(st0, pieces.take(i + 1)) == apply_keyword(
                        magic_of(before),
                        keywords@[i as int]@,
                    ));
                    lemma_refusal_sticks(st0, pieces, i + 1);
                }
                return Err(e);
            },
        }
        i += 1;
    }
    assert(pieces.take(i as int) =~= pieces);
    Ok(())
}

impl Pattern {
    /// Parses a pathspec: an optional `:` with short magic, optionally
    /// followed by long magic in parentheses, then the path.
    pub fn from_bytes(input: &[u8]) -> (r: Result<Pattern, Error>)
        ensures
            match parse_pattern(input@) {
                Ok(pv) => r matches Ok(p) && p@ == pv,
                Err(e) => r matches Err(x) && x@ == e,
            },
    {
        let ghost s = input@;
        if input.len() == 0 {
            return Err(Error::EmptyString);
        }
        let mut p = Pattern {
            path: Vec::new(),
            signature: MagicSignature::empty(),
            search_mode: SearchMode::ShellGlob,
            attributes: Vec::new(),
        };
        assert(p@.attributes =~= Seq::<u8>::empty());
        let mut cursor: usize = 0;
        if input[0] == 0x3a {
            cursor = 1;
            proof {
                lemma_short_end(s, 1);
            }
            match parse_short_keywords(input, &mut p, &mut cursor) {
                Err(e) => {
                    return Err(e);
                },
                Ok(()) => {},
            }
            proof {
                if let Ok((sig, c)) = short_result(s, 1) {
                    assert(sig_or(no_magic(), sig) == sig);
                }
            }
            if cursor < input.len() && input[cursor] == 0x28 {
                cursor = cursor + 1;
                match parse_long_keywords(input, &mut p, &mut cursor) {
                    Err(e) => {
                        return Err(e);
                    },
                    Ok(()) => {},
                }
            }
        }
        p.path = sub_bytes(input, cursor, input.len());
        assert(s.subrange(0, s.len() as int) =~= s);
        Ok(p)
    }
}

} // verus!
