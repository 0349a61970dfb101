//! Text utilities shared by the protocol code: decimal rendering, character
//! vectors, splitting and joining, searching and trimming.
use vstd::prelude::*;
use vstd::utf8::*;

verus! {

/// The decimal digit character for `d` (`d < 10`).
pub open spec fn digit_char(d: nat) -> char {
    ((d + 48) as u32) as char
}

/// Decimal rendering of a natural number, without leading zeros.
pub open spec fn decimal(n: nat) -> Seq<char>
    decreases n,
{
    if n < 10 {
        seq![digit_char(n)]
    } else {
        decimal(n / 10).push(digit_char(n % 10))
    }
}

/// Appends the decimal rendering of `n` to `out`.
pub fn push_decimal(out: &mut Vec<char>, n: u32)
    ensures
        final(out)@ == old(out)@ + decimal(n as nat),
    decreases n,
{
    if n >= 10 {
        push_decimal(out, n / 10);
    }
    let d: u32 = n % 10;
    let c: char = if d == 0 { '0' } else if d == 1 { '1' } else if d == 2 { '2' } else if d == 3 {
        '3'
    } else if d == 4 { '4' } else if d == 5 { '5' } else if d == 6 { '6' } else if d == 7 {
        '7'
    } else if d == 8 { '8' } else { '9' };
    out.push(c);
}

/// The characters of a string slice, in order.
pub fn chars_of(s: &str) -> (v: Vec<char>)
    ensures
        v@ == s@,
{
    let mut v: Vec<char> = Vec::new();
    for c in it: s.chars()
        invariant
            v@ == it.seq().take(it.index() as int),
    {
        v.push(c);
    }
    v
}

/// `String::push`: appends one character to the end of the string.
#[verifier::external_body]
fn string_push(s: &mut String, c: char)
    ensures
        final(s)@ == old(s)@.push(c),
{
    s.push(c)
}

/// A string holding exactly the given characters.
pub fn string_of(v: &[char]) -> (s: String)
    ensures
        s@ == v@,
{
    let mut s = String::new();
    for i in 0..v.len()
        invariant
            s@ == v@.take(i as int),
    {
        string_push(&mut s, v[i]);
        assert(v@.take(i + 1) == v@.take(i as int).push(v@[i as int]));
    }
    assert(v@.take(v.len() as int) == v@);
    s
}

/// Appends all characters of `s` to `out`.
pub fn push_str(out: &mut Vec<char>, s: &str)
    ensures
        final(out)@ == old(out)@ + s@,
{
    let v = chars_of(s);
    extend_chars(out, v.as_slice());
}

/// Splits `s` at every occurrence of `sep`, as `str::split` with a `char`
/// pattern does: `k` separators give `k + 1` pieces, empty ones included.
pub open spec fn split_on(s: Seq<char>, sep: char) -> Seq<Seq<char>>
    decreases s.len(),
{
    if s.len() == 0 {
        seq![Seq::<char>::empty()]
    } else {
        let prev = split_on(s.drop_last(), sep);
        if s.last() == sep {
            prev.push(Seq::<char>::empty())
        } else {
            prev.update(prev.len() - 1, prev.last().push(s.last()))
        }
    }
}

/// `split_on` never yields an empty list of pieces.
pub proof fn lemma_split_on_nonempty(s: Seq<char>, sep: char)
    ensures
        split_on(s, sep).len() >= 1,
    decreases s.len(),
{
    if s.len() > 0 {
        lemma_split_on_nonempty(s.drop_last(), sep);
    }
}

/// The pieces of `s` between occurrences of `sep`.
pub fn split_chars(s: &[char], sep: char) -> (parts: Vec<Vec<char>>)
    ensures
        parts@.len() == split_on(s@, sep).len(),
        forall|i: int| 0 <= i < parts@.len() ==> #[trigger] parts@[i]@ == split_on(s@, sep)[i],
{
    let mut parts: Vec<Vec<char>> = Vec::new();
    let mut cur: Vec<char> = Vec::new();
    for i in 0..s.len()
        invariant
            parts@.len() + 1 == split_on(s@.take(i as int), sep).len(),
            forall|k: int| 0 <= k < parts@.len() ==> #[trigger] parts@[k]@ == split_on(s@.take(i as int), sep)[k],
            cur@ == split_on(s@.take(i as int), sep).last(),
    {
        proof {
            lemma_split_on_nonempty(s@.take(i as int), sep);
            assert(s@.take(i + 1).drop_last() == s@.take(i as int));
        }
        if s[i] == sep {
            parts.push(cur);
            cur = Vec::new();
        } else {
            cur.push(s[i]);
        }
    }
    assert(s@.take(s.len() as int) == s@);
    proof {
        lemma_split_on_nonempty(s@, sep);
    }
    parts.push(cur);
    parts
}

/// The pieces joined back together with `sep` between neighbours, as
/// `[T]::join` does.
pub open spec fn join_with(parts: Seq<Seq<char>>, sep: Seq<char>) -> Seq<char>
    decreases parts.len(),
{
    if parts.len() == 0 {
        Seq::<char>::empty()
    } else if parts.len() == 1 {
        parts[0]
    } else {
        join_with(parts.drop_last(), sep) + sep + parts.last()
    }
}

/// True for the characters that `char::is_whitespace` accepts: those with
/// the Unicode `White_Space` property.
pub open spec fn is_white_space(c: char) -> bool {
    let u = c as u32;
    ||| 0x09 <= u <= 0x0d
    ||| u == 0x20
    ||| u == 0x85
    ||| u == 0xa0
    ||| u == 0x1680
    ||| 0x2000 <= u <= 0x200a
    ||| u == 0x2028
    ||| u == 0x2029
    ||| u == 0x202f
    ||| u == 0x205f
    ||| u == 0x3000
}

/// `s` without its leading white space.
pub open spec fn trim_start(s: Seq<char>) -> Seq<char>
    decreases s.len(),
{
    if s.len() > 0 && is_white_space(s[0]) {
        trim_start(s.drop_first())
    } else {
        s
    }
}

/// `s` without its trailing white space.
pub open spec fn trim_end(s: Seq<char>) -> Seq<char>
    decreases s.len(),
{
    if s.len() > 0 && is_white_space(s.last()) {
        trim_end(s.drop_last())
    } else {
        s
    }
}

/// `s` without leading and trailing white space, as `str::trim` returns it.
pub open spec fn trim(s: Seq<char>) -> Seq<char> {
    trim_end(trim_start(s))
}

fn is_white_space_exec(c: char) -> (b: bool)
    ensures
        b == is_white_space(c),
{
    let u = c as u32;
    (0x09 <= u && u <= 0x0d) || u == 0x20 || u == 0x85 || u == 0xa0 || u == 0x1680 || (0x2000
        <= u && u <= 0x200a) || u == 0x2028 || u == 0x2029 || u == 0x202f || u == 0x205f || u
        == 0x3000
}

proof fn lemma_trim_start_skip(s: Seq<char>, i: int)
    requires
        0 <= i <= s.len(),
        forall|k: int| 0 <= k < i ==> is_white_space(#[trigger] s[k]),
    ensures
        trim_start(s) == trim_start(s.skip(i)),
    decreases i,
{
    if i > 0 {
        assert(s.skip(1) == s.drop_first());
        lemma_trim_start_skip(s.drop_first(), i - 1);
        assert(s.drop_first().skip(i - 1) == s.skip(i));
    } else {
        assert(s.skip(0) == s);
    }
}

proof fn lemma_trim_end_take(s: Seq<char>, j: int)
    requires
        0 <= j <= s.len(),
        forall|k: int| j <= k < s.len() ==> is_white_space(#[trigger] s[k]),
    ensures
        trim_end(s) == trim_end(s.take(j)),
    decreases s.len() - j,
{
    if j < s.len() {
        assert(s.drop_last().take(j) == s.take(j));
        lemma_trim_end_take(s.drop_last(), j);
    } else {
        assert(s.take(j) == s);
    }
}

/// `v` with leading and trailing white space removed.
pub fn trim_chars(v: &[char]) -> (r: Vec<char>)
    ensures
        r@ == trim(v@),
{
    let n = v.len();
    let mut i: usize = 0;
    while i < n && is_white_space_exec(v[i])
        invariant
            i <= n == v@.len(),
            forall|k: int| 0 <= k < i ==> is_white_space(#[trigger] v@[k]),
        decreases n - i,
    {
        i = i + 1;
    }
    proof {
        lemma_trim_start_skip(v@, i as int);
    }
    let ghost rest = v@.skip(i as int);
    assert(!(rest.len() > 0 && is_white_space(rest[0])));
    assert(trim_start(v@) == rest);
    let mut j: usize = n;
    while j > i && is_white_space_exec(v[j - 1])
        invariant
            i <= j <= n == v@.len(),
            rest == v@.skip(i as int),
            forall|k: int| j <= k < n ==> is_white_space(#[trigger] v@[k]),
        decreases j,
    {
        j = j - 1;
    }
    proof {
        lemma_trim_end_take(rest, j - i);
        let t = rest.take(j - i);
        assert(!(t.len() > 0 && is_white_space(t.last())));
    }
    let mut r: Vec<char> = Vec::new();
    let mut k: usize = i;
    while k < j
        invariant
            i <= k <= j <= n == v@.len(),
            r@ == v@.subrange(i as int, k as int),
        decreases j - k,
    {
        r.push(v[k]);
        assert(v@.subrange(i as int, k + 1) == v@.subrange(i as int, k as int).push(v@[k as int]));
        k = k + 1;
    }
    assert(r@ == rest.take(j - i));
    r
}


/// The characters that `String::from_utf8_lossy` produces for `bytes`.
pub uninterp spec fn lossy_utf8(bytes: Seq<u8>) -> Seq<char>;

/// `String::from_utf8_lossy`: decodes `bytes` as UTF-8, putting U+FFFD in
/// place of each ill-formed sequence. The result is named by `lossy_utf8`;
/// the std documentation also shows that well-formed input is decoded
/// unchanged, which is the one further fact stated here.
#[verifier::external_body]
pub(crate) fn decode_lossy(bytes: &[u8]) -> (s: String)
    ensures
        s@ == lossy_utf8(bytes@),
        valid_utf8(bytes@) ==> s@ == decode_utf8(bytes@),
{
    String::from_utf8_lossy(bytes).into_owned()
}

/// The text of some bytes read as UTF-8, as `decode_lossy` returns it:
/// the decoded characters when the bytes are well-formed.
pub open spec fn text_of(bytes: Seq<u8>) -> Seq<char> {
    if valid_utf8(bytes) {
        decode_utf8(bytes)
    } else {
        lossy_utf8(bytes)
    }
}

/// `decode_lossy` as a text: its result is `text_of` the bytes.
pub fn decode_text(bytes: &[u8]) -> (s: String)
    ensures
        s@ == text_of(bytes@),
{
    decode_lossy(bytes)
}

/// Dotted-decimal rendering of an IPv4 address, as `format!("{}.{}.{}.{}")`
/// prints four octets.
pub open spec fn dotted_quad(a: u8, b: u8, c: u8, d: u8) -> Seq<char> {
    decimal(a as nat) + seq!['.'] + decimal(b as nat) + seq!['.'] + decimal(c as nat) + seq!['.']
        + decimal(d as nat)
}

/// The characters of `dotted_quad(a, b, c, d)`.
pub fn dotted_quad_chars(a: u8, b: u8, c: u8, d: u8) -> (v: Vec<char>)
    ensures
        v@ == dotted_quad(a, b, c, d),
{
    let mut v: Vec<char> = Vec::new();
    push_decimal(&mut v, a as u32);
    v.push('.');
    push_decimal(&mut v, b as u32);
    v.push('.');
    push_decimal(&mut v, c as u32);
    v.push('.');
    push_decimal(&mut v, d as u32);
    v
}

/// `needle` occurs in `hay` starting at index `i`.
pub open spec fn occurs_at<T>(hay: Seq<T>, needle: Seq<T>, i: int) -> bool {
    0 <= i && i + needle.len() <= hay.len() && hay.subrange(i, i + needle.len()) == needle
}

/// The first index at or after `i` where `needle` occurs in `hay`.
pub open spec fn find_from<T>(hay: Seq<T>, needle: Seq<T>, i: int) -> Option<int>
    decreases hay.len() + 1 - i,
{
    if i < 0 || i + needle.len() > hay.len() {
        None
    } else if occurs_at(hay, needle, i) {
        Some(i)
    } else {
        find_from(hay, needle, i + 1)
    }
}

/// `needle` occurs somewhere in `hay`.
pub open spec fn contains_seq<T>(hay: Seq<T>, needle: Seq<T>) -> bool {
    exists|i: int| occurs_at(hay, needle, i)
}

/// A found index is an occurrence, and no earlier index at or after `i` is.
pub proof fn lemma_find_from<T>(hay: Seq<T>, needle: Seq<T>, i: int)
    requires
        0 <= i,
    ensures
        find_from(hay, needle, i) matches Some(p) ==> i <= p && occurs_at(hay, needle, p),
        forall|j: int|
            i <= j && (find_from(hay, needle, i) matches Some(p) ==> j < p) ==> !occurs_at(
                hay,
                needle,
                j,
            ),
    decreases hay.len() + 1 - i,
{
    if i + needle.len() > hay.len() {
    } else if occurs_at(hay, needle, i) {
    } else {
        lemma_find_from(hay, needle, i + 1);
    }
}

fn matches_at_bytes(hay: &[u8], needle: &[u8], i: usize) -> (b: bool)
    requires
        i + needle@.len() <= hay@.len(),
    ensures
        b == occurs_at(hay@, needle@, i as int),
{
    let h = hay.len();
    let mut k: usize = 0;
    while k < needle.len()
        invariant
            h == hay@.len(),
            i + needle@.len() <= hay@.len(),
            k <= needle@.len(),
            forall|m: int| 0 <= m < k ==> hay@[i + m] == needle@[m],
        decreases needle@.len() - k,
    {
        if hay[i + k] != needle[k] {
            assert(hay@.subrange(i as int, i + needle@.len())[k as int] != needle@[k as int]);
            return false;
        }
        k = k + 1;
    }
    assert(hay@.subrange(i as int, i + needle@.len()) =~= needle@);
    true
}

/// The first index where `needle` occurs in `hay`, as `find` on slices of
/// text reports it.
pub fn find_bytes(hay: &[u8], needle: &[u8]) -> (r: Option<usize>)
    ensures
        r matches Some(p) ==> find_from(hay@, needle@, 0) == Some(p as int),
        r is None ==> find_from(hay@, needle@, 0) is None,
{
    let n = needle.len();
    let h = hay.len();
    if n > h {
        return None;
    }
    if n == 0 {
        assert(hay@.subrange(0, 0) =~= needle@);
        assert(occurs_at(hay@, needle@, 0));
        return Some(0);
    }
    let mut i: usize = 0;
    while i <= h - n
        invariant
            n == needle@.len(),
            h == hay@.len(),
            1 <= n <= h,
            i <= h - n + 1,
            find_from(hay@, needle@, 0) == find_from(hay@, needle@, i as int),
        decreases h - n + 1 - i,
    {
        if matches_at_bytes(hay, needle, i) {
            return Some(i);
        }
        i = i + 1;
    }
    None
}

fn matches_at_chars(hay: &[char], needle: &[char], i: usize) -> (b: bool)
    requires
        i + needle@.len() <= hay@.len(),
    ensures
        b == occurs_at(hay@, needle@, i as int),
{
    let h = hay.len();
    let mut k: usize = 0;
    while k < needle.len()
        invariant
            h == hay@.len(),
            i + needle@.len() <= hay@.len(),
            k <= needle@.len(),
            forall|m: int| 0 <= m < k ==> hay@[i + m] == needle@[m],
        decreases needle@.len() - k,
    {
        if hay[i + k] != needle[k] {
            assert(hay@.subrange(i as int, i + needle@.len())[k as int] != needle@[k as int]);
            return false;
        }
        k = k + 1;
    }
    assert(hay@.subrange(i as int, i + needle@.len()) =~= needle@);
    true
}

/// The first index where `needle` occurs in `hay`, as `find` on slices of
/// text reports it.
pub fn find_chars(hay: &[char], needle: &[char]) -> (r: Option<usize>)
    ensures
        r matches Some(p) ==> find_from(hay@, needle@, 0) == Some(p as int),
        r is None ==> find_from(hay@, needle@, 0) is None,
{
    let n = needle.len();
    let h = hay.len();
    if n > h {
        return None;
    }
    if n == 0 {
        assert(hay@.subrange(0, 0) =~= needle@);
        assert(occurs_at(hay@, needle@, 0));
        return Some(0);
    }
    let mut i: usize = 0;
    while i <= h - n
        invariant
            n == needle@.len(),
            h == hay@.len(),
            1 <= n <= h,
            i <= h - n + 1,
            find_from(hay@, needle@, 0) == find_from(hay@, needle@, i as int),
        decreases h - n + 1 - i,
    {
        if matches_at_chars(hay, needle, i) {
            return Some(i);
        }
        i = i + 1;
    }
    None
}


/// Whether two character sequences are equal.
pub fn chars_equal(a: &[char], b: &[char]) -> (r: bool)
    ensures
        r == (a@ == b@),
{
    if a.len() != b.len() {
        return false;
    }
    let mut i: usize = 0;
    while i < a.len()
        invariant
            a@.len() == b@.len(),
            i <= a@.len(),
            forall|k: int| 0 <= k < i ==> a@[k] == b@[k],
        decreases a@.len() - i,
    {
        if a[i] != b[i] {
            return false;
        }
        i = i + 1;
    }
    assert(a@ =~= b@);
    true
}

/// The UTF-8 encoding of a concatenation is the concatenation of the
/// encodings.
pub proof fn lemma_encode_utf8_concat(a: Seq<char>, b: Seq<char>)
    ensures
        encode_utf8(a + b) == encode_utf8(a) + encode_utf8(b),
    decreases a.len(),
{
    if a.len() == 0 {
        assert(a + b == b);
    } else {
        lemma_encode_utf8_concat(a.drop_first(), b);
        assert((a + b).drop_first() == a.drop_first() + b);
        assert((a + b)[0] == a[0]);
    }
}

/// The UTF-8 bytes of a text.
pub fn bytes_of(s: &str) -> (v: Vec<u8>)
    ensures
        v@ == encode_utf8(s@),
{
    let b = s.as_bytes();
    let mut v: Vec<u8> = Vec::new();
    for i in 0..b.len()
        invariant
            v@ == b@.take(i as int),
    {
        v.push(b[i]);
        assert(b@.take(i + 1) == b@.take(i as int).push(b@[i as int]));
    }
    assert(b@.take(b.len() as int) == b@);
    v
}

/// Appends all characters of `src` to `out`.
pub fn extend_chars(out: &mut Vec<char>, src: &[char])
    ensures
        final(out)@ == old(out)@ + src@,
{
    for i in 0..src.len()
        invariant
            out@ == old(out)@ + src@.take(i as int),
    {
        out.push(src[i]);
        assert(src@.take(i + 1) == src@.take(i as int).push(src@[i as int]));
    }
    assert(src@.take(src.len() as int) == src@);
}


/// Whether two texts are equal.
pub fn str_eq(a: &str, b: &str) -> (r: bool)
    ensures
        r == (a@ == b@),
{
    let x = chars_of(a);
    let y = chars_of(b);
    chars_equal(x.as_slice(), y.as_slice())
}


/// The text views of a list of strings.
pub open spec fn string_views(v: Seq<String>) -> Seq<Seq<char>> {
    v.map_values(|s: String| s@)
}

/// The strings of `v` joined with `sep` between neighbours.
pub fn join_strings(v: &Vec<String>, sep: char) -> (r: Vec<char>)
    ensures
        r@ == join_with(string_views(v@), seq![sep]),
{
    let ghost all = string_views(v@);
    let mut joined: Vec<char> = Vec::new();
    for i in 0..v.len()
        invariant
            all == string_views(v@),
            joined@ == join_with(all.take(i as int), seq![sep]),
    {
        let piece = chars_of(v[i].as_str());
        if i != 0 {
            joined.push(sep);
        }
        extend_chars(&mut joined, piece.as_slice());
        assert(all.take(i + 1).drop_last() == all.take(i as int));
        if i == 0 {
            assert(joined@ == all.take(1)[0]);
        }
    }
    assert(all.take(v.len() as int) == all);
    joined
}


/// `c` does not occur in `s`.
pub open spec fn lacks(s: Seq<char>, c: char) -> bool {
    forall|i: int| 0 <= i < s.len() ==> #[trigger] s[i] != c
}

/// A text without the separator is a single piece.
pub proof fn lemma_split_on_lacking(s: Seq<char>, sep: char)
    requires
        lacks(s, sep),
    ensures
        split_on(s, sep) == seq![s],
    decreases s.len(),
{
    if s.len() > 0 {
        assert(lacks(s.drop_last(), sep));
        lemma_split_on_lacking(s.drop_last(), sep);
        assert(s.drop_last().push(s.last()) == s);
    } else {
        assert(s == Seq::<char>::empty());
    }
}

/// Splitting at a separator that joins two texts yields the pieces of
/// the first followed by those of the second.
pub proof fn lemma_split_on_concat(a: Seq<char>, b: Seq<char>, sep: char)
    ensures
        split_on(a + seq![sep] + b, sep) == split_on(a, sep) + split_on(b, sep),
    decreases b.len(),
{
    if b.len() == 0 {
        assert(a + seq![sep] + b == a.push(sep));
        assert((a + seq![sep] + b).drop_last() == a);
        assert(split_on(a, sep) + split_on(b, sep) =~= split_on(a, sep).push(Seq::<char>::empty()));
    } else {
        let b0 = b.drop_last();
        lemma_split_on_concat(a, b0, sep);
        lemma_split_on_nonempty(b0, sep);
        lemma_split_on_nonempty(a, sep);
        let whole = a + seq![sep] + b;
        assert(whole.drop_last() == a + seq![sep] + b0);
        assert(whole.last() == b.last());
        let pa = split_on(a, sep);
        let pb0 = split_on(b0, sep);
        if b.last() == sep {
            assert(split_on(a, sep) + split_on(b, sep) =~= (pa + pb0).push(Seq::<char>::empty()));
        } else {
            let prev = pa + pb0;
            assert(split_on(whole, sep) == prev.update(prev.len() - 1, prev.last().push(b.last())));
            assert(split_on(b, sep) == pb0.update(pb0.len() - 1, pb0.last().push(b.last())));
            assert(prev.update(prev.len() - 1, prev.last().push(b.last())) =~= pa + pb0.update(
                pb0.len() - 1,
                pb0.last().push(b.last()),
            ));
        }
    }
}

/// Splitting a join of pieces without the separator gives the pieces back.
pub proof fn lemma_split_join(parts: Seq<Seq<char>>, sep: char)
    requires
        parts.len() > 0,
        forall|i: int| 0 <= i < parts.len() ==> lacks(#[trigger] parts[i], sep),
    ensures
        split_on(join_with(parts, seq![sep]), sep) == parts,
    decreases parts.len(),
{
    if parts.len() == 1 {
        lemma_split_on_lacking(parts[0], sep);
        assert(parts == seq![parts[0]]);
    } else {
        let init = parts.drop_last();
        assert forall|i: int| 0 <= i < init.len() implies lacks(#[trigger] init[i], sep) by {
            assert(init[i] == parts[i]);
        }
        lemma_split_join(init, sep);
        lemma_split_on_concat(join_with(init, seq![sep]), parts.last(), sep);
        lemma_split_on_lacking(parts.last(), sep);
        assert(init + seq![parts.last()] =~= parts);
    }
}

/// A join of pieces without a character, with a separator other than it,
/// lacks it too.
pub proof fn lemma_join_lacks(parts: Seq<Seq<char>>, sep: Seq<char>, c: char)
    requires
        lacks(sep, c),
        forall|i: int| 0 <= i < parts.len() ==> lacks(#[trigger] parts[i], c),
    ensures
        lacks(join_with(parts, sep), c),
    decreases parts.len(),
{
    if parts.len() > 1 {
        let init = parts.drop_last();
        assert forall|i: int| 0 <= i < init.len() implies lacks(#[trigger] init[i], c) by {
            assert(init[i] == parts[i]);
        }
        lemma_join_lacks(init, sep, c);
        let j = join_with(init, sep);
        let whole = j + sep + parts.last();
        assert forall|i: int| 0 <= i < whole.len() implies #[trigger] whole[i] != c by {
            if i < j.len() {
                assert(whole[i] == j[i]);
            } else if i < j.len() + sep.len() {
                assert(whole[i] == sep[i - j.len()]);
            } else {
                assert(whole[i] == parts.last()[i - j.len() - sep.len()]);
            }
        }
    } else if parts.len() == 1 {
        assert(lacks(parts[0], c));
    }
}

} // verus!
