//! Character and byte level helpers shared by the rest of the library.
use vstd::prelude::*;
use vstd::utf8::*;
use vstd::string::*;

verus! {

broadcast use vstd::string::group_string_axioms;

/// `c` is a Unicode `White_Space` character, as `char::is_whitespace` defines it.
pub open spec fn is_ws(c: char) -> bool {
    let u = c as u32;
    ||| (0x09 <= u && u <= 0x0d)
    ||| u == 0x20
    ||| u == 0x85
    ||| u == 0xa0
    ||| u == 0x1680
    ||| (0x2000 <= u && u <= 0x200a)
    ||| u == 0x2028
    ||| u == 0x2029
    ||| u == 0x202f
    ||| u == 0x205f
    ||| u == 0x3000
}

/// Whether `c` is a white space character.
pub fn is_whitespace_char(c: char) -> (b: bool)
    ensures
        b == is_ws(c),
{
    let u = c as u32;
    (0x09 <= u && u <= 0x0d) || u == 0x20 || u == 0x85 || u == 0xa0 || u == 0x1680 || (0x2000
        <= u && u <= 0x200a) || u == 0x2028 || u == 0x2029 || u == 0x202f || u == 0x205f || u
        == 0x3000
}

/// The characters of `s`, in order.
pub fn chars_of(s: &str) -> (v: Vec<char>)
    ensures
        v@ == s@,
{
    let mut v: Vec<char> = Vec::new();
    for c in it: s.chars()
        invariant
            it.seq() == s@,
            v@ == it.seq().take(it.index() as int),
    {
        v.push(c);
    }
    v
}


/// Appends one character to a string (`String::push`).
#[verifier::external_body]
pub(crate) fn push_char(s: &mut String, c: char)
    ensures
        final(s)@ == old(s)@.push(c),
{
    s.push(c);
}

/// The string holding exactly the characters `v`.
pub fn string_of(v: &Vec<char>) -> (s: String)
    ensures
        s@ == v@,
{
    let mut s = String::new();
    let mut i: usize = 0;
    while i < v.len()
        invariant
            i <= v.len(),
            s@ == v@.take(i as int),
        decreases v.len() - i,
    {
        push_char(&mut s, v[i]);
        i = i + 1;
        assert(s@ == v@.take(i as int));
    }
    assert(v@.take(v.len() as int) == v@);
    s
}

/// Decodes `bytes` as UTF-8 (`String::from_utf8`), or `None` where they are not
/// valid UTF-8.
#[verifier::external_body]
pub(crate) fn string_from_utf8(bytes: Vec<u8>) -> (r: Option<String>)
    ensures
        r is Some <==> valid_utf8(bytes@),
        r matches Some(s) ==> s@ == decode_utf8(bytes@),
{
    String::from_utf8(bytes).ok()
}

/// What `String::from_utf8_lossy` makes of `bytes`: invalid sequences become
/// U+FFFD replacement characters.
pub uninterp spec fn lossy_utf8(bytes: Seq<u8>) -> Seq<char>;

/// Decodes `bytes` as UTF-8, replacing invalid sequences
/// (`String::from_utf8_lossy`). Its result is named `lossy_utf8`; the standard
/// library documents that valid UTF-8 is returned unchanged, which the
/// contract states too. Nothing else is said of invalid input.
#[verifier::external_body]
pub(crate) fn string_from_utf8_lossy(bytes: &[u8]) -> (s: String)
    ensures
        s@ == lossy_utf8(bytes@),
        valid_utf8(bytes@) ==> s@ == decode_utf8(bytes@),
{
    String::from_utf8_lossy(bytes).into_owned()
}

/// The UTF-8 bytes of `s`.
pub fn bytes_of(s: &str) -> (v: Vec<u8>)
    ensures
        v@ == encode_utf8(s@),
{
    s.as_bytes_vec()
}


/// `s` with leading white space removed (`str::trim_start`).
pub open spec fn trim_start(s: Seq<char>) -> Seq<char>
    decreases s.len(),
{
    if s.len() > 0 && is_ws(s[0]) {
        trim_start(s.drop_first())
    } else {
        s
    }
}

/// `s` with trailing white space removed (`str::trim_end`).
pub open spec fn trim_end(s: Seq<char>) -> Seq<char>
    decreases s.len(),
{
    if s.len() > 0 && is_ws(s.last()) {
        trim_end(s.drop_last())
    } else {
        s
    }
}

/// `s` with leading and trailing white space removed (`str::trim`).
pub open spec fn trim(s: Seq<char>) -> Seq<char> {
    trim_end(trim_start(s))
}

/// `s` begins with `p`.
pub open spec fn starts_with(s: Seq<char>, p: Seq<char>) -> bool {
    p.len() <= s.len() && s.take(p.len() as int) == p
}

/// `s` ends with `p`.
pub open spec fn ends_with(s: Seq<char>, p: Seq<char>) -> bool {
    p.len() <= s.len() && s.skip(s.len() - p.len()) == p
}

proof fn lemma_trim_start_skip(s: Seq<char>, i: int)
    requires
        0 <= i < s.len(),
        is_ws(s[i]),
    ensures
        trim_start(s.skip(i)) == trim_start(s.skip(i + 1)),
{
    assert(s.skip(i).drop_first() =~= s.skip(i + 1));
}

proof fn lemma_trim_end_take(s: Seq<char>, j: int)
    requires
        0 < j <= s.len(),
        is_ws(s[j - 1]),
    ensures
        trim_end(s.take(j)) == trim_end(s.take(j - 1)),
{
    assert(s.take(j).drop_last() =~= s.take(j - 1));
}

/// The characters of `v` between `lo` and `hi`.
pub fn slice_chars(v: &Vec<char>, lo: usize, hi: usize) -> (r: Vec<char>)
    requires
        lo <= hi <= v.len(),
    ensures
        r@ == v@.subrange(lo as int, hi as int),
{
    let mut r: Vec<char> = Vec::new();
    let mut i = lo;
    while i < hi
        invariant
            lo <= i <= hi <= v.len(),
            r@ == v@.subrange(lo as int, i as int),
        decreases hi - i,
    {
        r.push(v[i]);
        i = i + 1;
        assert(r@ == v@.subrange(lo as int, i as int));
    }
    r
}

/// `v` with leading and trailing white space removed.
pub fn trim_chars(v: &Vec<char>) -> (r: Vec<char>)
    ensures
        r@ == trim(v@),
{
    let mut lo: usize = 0;
    assert(v@.skip(0) =~= v@);
    while lo < v.len() && is_whitespace_char(v[lo])
        invariant
            lo <= v.len(),
            trim_start(v@) == trim_start(v@.skip(lo as int)),
        decreases v.len() - lo,
    {
        proof {
            lemma_trim_start_skip(v@, lo as int);
        }
        lo = lo + 1;
    }
    assert(trim_start(v@) == v@.skip(lo as int));
    let ghost t = v@.skip(lo as int);
    let mut hi: usize = v.len();
    assert(t.take(hi - lo) =~= t);
    while hi > lo && is_whitespace_char(v[hi - 1])
        invariant
            lo <= hi <= v.len(),
            t == v@.skip(lo as int),
            trim_end(t) == trim_end(t.take(hi - lo)),
        decreases hi,
    {
        proof {
            lemma_trim_end_take(t, (hi - lo) as int);
        }
        hi = hi - 1;
    }
    assert(trim_end(t) == t.take(hi - lo));
    let r = slice_chars(v, lo, hi);
    assert(r@ =~= t.take(hi - lo));
    r
}

/// `s` with leading white space removed (`str::trim_start`).
pub fn trim_start_str(s: &str) -> (r: String)
    ensures
        r@ == trim_start(s@),
{
    let v = chars_of(s);
    let mut lo: usize = 0;
    assert(v@.skip(0) =~= v@);
    while lo < v.len() && is_whitespace_char(v[lo])
        invariant
            lo <= v.len(),
            trim_start(v@) == trim_start(v@.skip(lo as int)),
        decreases v.len() - lo,
    {
        proof {
            lemma_trim_start_skip(v@, lo as int);
        }
        lo = lo + 1;
    }
    assert(trim_start(v@) == v@.skip(lo as int));
    let r = slice_chars(&v, lo, v.len());
    assert(r@ =~= v@.skip(lo as int));
    string_of(&r)
}

/// `s` with leading and trailing white space removed (`str::trim`).
pub fn trim_str(s: &str) -> (r: String)
    ensures
        r@ == trim(s@),
{
    let v = chars_of(s);
    string_of(&trim_chars(&v))
}

/// Whether `s` begins with `p`.
pub fn chars_start_with(s: &Vec<char>, p: &Vec<char>) -> (b: bool)
    ensures
        b == starts_with(s@, p@),
{
    if p.len() > s.len() {
        return false;
    }
    let mut i: usize = 0;
    while i < p.len()
        invariant
            p.len() <= s.len(),
            i <= p.len(),
            forall|k: int| 0 <= k < i ==> s@[k] == p@[k],
        decreases p.len() - i,
    {
        if s[i] != p[i] {
            assert(s@.take(p.len() as int)[i as int] != p@[i as int]);
            return false;
        }
        i = i + 1;
    }
    assert(s@.take(p.len() as int) =~= p@);
    true
}

/// Whether `s` ends with `p`.
pub fn chars_end_with(s: &Vec<char>, p: &Vec<char>) -> (b: bool)
    ensures
        b == ends_with(s@, p@),
{
    if p.len() > s.len() {
        return false;
    }
    let off = s.len() - p.len();
    let mut i: usize = 0;
    while i < p.len()
        invariant
            p.len() <= s.len(),
            off == s.len() - p.len(),
            i <= p.len(),
            forall|k: int| 0 <= k < i ==> s@[off + k] == p@[k],
        decreases p.len() - i,
    {
        if s[off + i] != p[i] {
            assert(s@.skip(off as int)[i as int] != p@[i as int]);
            return false;
        }
        i = i + 1;
    }
    assert(s@.skip(off as int) =~= p@);
    true
}

/// Whether the two character sequences are equal.
pub fn chars_eq(a: &Vec<char>, b: &Vec<char>) -> (r: bool)
    ensures
        r == (a@ == b@),
{
    if a.len() != b.len() {
        return false;
    }
    let r = chars_start_with(a, b);
    proof {
        if r {
            assert(a@ =~= a@.take(b.len() as int));
        }
        if a@ == b@ {
            assert(a@.take(b.len() as int) =~= b@);
        }
    }
    r
}

/// Whether the two strings are equal.
pub fn str_eq(a: &str, b: &str) -> (r: bool)
    ensures
        r == (a@ == b@),
{
    chars_eq(&chars_of(a), &chars_of(b))
}

/// Whether `s` begins with `p`.
pub fn str_starts_with(s: &str, p: &str) -> (r: bool)
    ensures
        r == starts_with(s@, p@),
{
    chars_start_with(&chars_of(s), &chars_of(p))
}

/// Whether `s` ends with `p`.
pub fn str_ends_with(s: &str, p: &str) -> (r: bool)
    ensures
        r == ends_with(s@, p@),
{
    chars_end_with(&chars_of(s), &chars_of(p))
}

/// The concatenation of `a` and `b`.
pub fn concat(a: &str, b: &str) -> (r: String)
    ensures
        r@ == a@ + b@,
{
    let mut r = a.to_string();
    r.append(b);
    r
}


/// The texts of a list of strings.
pub open spec fn string_list_view(v: Seq<String>) -> Seq<Seq<char>> {
    v.map_values(|s: String| s@)
}


/// `cur` put in front of the first piece of `r`.
pub open spec fn glue<A>(cur: Seq<A>, r: Seq<Seq<A>>) -> Seq<Seq<A>> {
    r.update(0, cur + r[0])
}

/// The pieces of `s` between occurrences of `c` (`str::split` with a single
/// separator): one more piece than there are separators, empty pieces included.
pub open spec fn split_on<A>(s: Seq<A>, c: A) -> Seq<Seq<A>>
    decreases s.len(),
{
    if s.len() == 0 {
        seq![Seq::empty()]
    } else {
        let rest = split_on(s.drop_first(), c);
        if s[0] == c {
            seq![Seq::empty()] + rest
        } else {
            glue(seq![s[0]], rest)
        }
    }
}

/// The pieces of `s` between runs of white space: like `split_on`, every
/// white space character separates.
pub open spec fn split_ws(s: Seq<char>) -> Seq<Seq<char>>
    decreases s.len(),
{
    if s.len() == 0 {
        seq![Seq::empty()]
    } else {
        let rest = split_ws(s.drop_first());
        if is_ws(s[0]) {
            seq![Seq::empty()] + rest
        } else {
            glue(seq![s[0]], rest)
        }
    }
}

/// The white space separated words of `s` (`str::split_whitespace`).
pub open spec fn words(s: Seq<char>) -> Seq<Seq<char>> {
    split_ws(s).filter(|w: Seq<char>| w.len() > 0)
}

/// `line` without one trailing carriage return.
pub open spec fn strip_cr(line: Seq<char>) -> Seq<char> {
    if line.len() > 0 && line.last() == '\r' {
        line.drop_last()
    } else {
        line
    }
}

/// The lines of `s` (`str::lines`): split at each newline, a carriage return
/// before a newline removed, and no empty last line after a final newline.
pub open spec fn lines(s: Seq<char>) -> Seq<Seq<char>> {
    let p = split_on(s, '\n');
    let body = p.drop_last().map_values(|l: Seq<char>| strip_cr(l));
    if p.last().len() == 0 {
        body
    } else {
        body.push(p.last())
    }
}

pub proof fn lemma_split_on_nonempty<A>(s: Seq<A>, c: A)
    ensures
        split_on(s, c).len() >= 1,
    decreases s.len(),
{
    if s.len() > 0 {
        lemma_split_on_nonempty(s.drop_first(), c);
    }
}

pub proof fn lemma_split_ws_nonempty(s: Seq<char>)
    ensures
        split_ws(s).len() >= 1,
    decreases s.len(),
{
    if s.len() > 0 {
        lemma_split_ws_nonempty(s.drop_first());
    }
}

/// The views of a list of character vectors.
pub open spec fn chars_list_view(v: Seq<Vec<char>>) -> Seq<Seq<char>> {
    v.map_values(|x: Vec<char>| x@)
}

/// The views of a list of byte vectors.
pub open spec fn bytes_list_view(v: Seq<Vec<u8>>) -> Seq<Seq<u8>> {
    v.map_values(|x: Vec<u8>| x@)
}

/// The pieces of `v` between occurrences of `c`.
pub fn split_chars(v: &Vec<char>, c: char) -> (r: Vec<Vec<char>>)
    ensures
        chars_list_view(r@) == split_on(v@, c),
{
    let mut done: Vec<Vec<char>> = Vec::new();
    let mut cur: Vec<char> = Vec::new();
    let mut i: usize = 0;
    assert(v@.skip(0) =~= v@);
    proof {
        lemma_split_on_nonempty(v@, c);
        assert(Seq::<char>::empty() + split_on(v@, c)[0] =~= split_on(v@, c)[0]);
        assert(glue(cur@, split_on(v@, c)) =~= split_on(v@, c));
        assert(chars_list_view(done@) + split_on(v@, c) =~= split_on(v@, c));
    }
    while i < v.len()
        invariant
            i <= v.len(),
            split_on(v@, c) == chars_list_view(done@) + glue(cur@, split_on(v@.skip(i as int), c)),
        decreases v.len() - i,
    {
        let ghost t = v@.skip(i as int);
        assert(t.drop_first() =~= v@.skip(i + 1));
        proof {
            lemma_split_on_nonempty(v@.skip(i + 1), c);
        }
        if v[i] == c {
            assert(glue(Seq::<char>::empty(), split_on(v@.skip(i + 1), c)) =~= split_on(v@.skip(i + 1), c));
            done.push(cur);
            cur = Vec::new();
            assert(split_on(v@, c) =~= chars_list_view(done@) + glue(cur@, split_on(v@.skip(i + 1), c)));
        } else {
            let ghost old_cur = cur@;
            cur.push(v[i]);
            let ghost r = split_on(v@.skip(i + 1), c);
            assert(split_on(t, c) == glue(seq![t[0]], r));
            assert(old_cur + (seq![t[0]] + r[0]) =~= cur@ + r[0]);
            assert(glue(old_cur, split_on(t, c)) =~= glue(cur@, r));
        }
        i = i + 1;
    }
    assert(v@.skip(i as int) =~= Seq::<char>::empty());
    done.push(cur);
    assert(split_on(v@, c) =~= chars_list_view(done@));
    done
}

/// The pieces of `v` between occurrences of `c`.
pub fn split_bytes(v: &Vec<u8>, c: u8) -> (r: Vec<Vec<u8>>)
    ensures
        bytes_list_view(r@) == split_on(v@, c),
{
    let mut done: Vec<Vec<u8>> = Vec::new();
    let mut cur: Vec<u8> = Vec::new();
    let mut i: usize = 0;
    assert(v@.skip(0) =~= v@);
    proof {
        lemma_split_on_nonempty(v@, c);
        assert(Seq::<u8>::empty() + split_on(v@, c)[0] =~= split_on(v@, c)[0]);
        assert(glue(cur@, split_on(v@, c)) =~= split_on(v@, c));
        assert(bytes_list_view(done@) + split_on(v@, c) =~= split_on(v@, c));
    }
    while i < v.len()
        invariant
            i <= v.len(),
            split_on(v@, c) == bytes_list_view(done@) + glue(cur@, split_on(v@.skip(i as int), c)),
        decreases v.len() - i,
    {
        let ghost t = v@.skip(i as int);
        assert(t.drop_first() =~= v@.skip(i + 1));
        proof {
            lemma_split_on_nonempty(v@.skip(i + 1), c);
        }
        if v[i] == c {
            assert(glue(Seq::<u8>::empty(), split_on(v@.skip(i + 1), c)) =~= split_on(v@.skip(i + 1), c));
            done.push(cur);
            cur = Vec::new();
            assert(split_on(v@, c) =~= bytes_list_view(done@) + glue(cur@, split_on(v@.skip(i + 1), c)));
        } else {
            let ghost old_cur = cur@;
            cur.push(v[i]);
            let ghost r = split_on(v@.skip(i + 1), c);
            assert(split_on(t, c) == glue(seq![t[0]], r));
            assert(old_cur + (seq![t[0]] + r[0]) =~= cur@ + r[0]);
            assert(glue(old_cur, split_on(t, c)) =~= glue(cur@, r));
        }
        i = i + 1;
    }
    assert(v@.skip(i as int) =~= Seq::<u8>::empty());
    done.push(cur);
    assert(split_on(v@, c) =~= bytes_list_view(done@));
    done
}


pub proof fn lemma_split_ws_step(t: Seq<char>)
    requires
        t.len() > 0,
    ensures
        is_ws(t[0]) ==> split_ws(t) == seq![Seq::<char>::empty()] + split_ws(t.drop_first()),
        !is_ws(t[0]) ==> split_ws(t) == glue(seq![t[0]], split_ws(t.drop_first())),
{
}

fn split_ws_chars(v: &Vec<char>) -> (r: Vec<Vec<char>>)
    ensures
        chars_list_view(r@) == split_ws(v@),
{
    let mut done: Vec<Vec<char>> = Vec::new();
    let mut cur: Vec<char> = Vec::new();
    let mut i: usize = 0;
    assert(v@.skip(0) =~= v@);
    proof {
        lemma_split_ws_nonempty(v@);
        assert(Seq::<char>::empty() + split_ws(v@)[0] =~= split_ws(v@)[0]);
        assert(glue(cur@, split_ws(v@)) =~= split_ws(v@));
        assert(chars_list_view(done@) + split_ws(v@) =~= split_ws(v@));
    }
    while i < v.len()
        invariant
            i <= v.len(),
            split_ws(v@) == chars_list_view(done@) + glue(cur@, split_ws(v@.skip(i as int))),
        decreases v.len() - i,
    {
        let ghost t = v@.skip(i as int);
        assert(t.drop_first() =~= v@.skip(i + 1));
        proof {
            lemma_split_ws_nonempty(v@.skip(i + 1));
            lemma_split_ws_step(t);
        }
        if is_whitespace_char(v[i]) {
            assert(glue(Seq::<char>::empty(), split_ws(v@.skip(i + 1))) =~= split_ws(v@.skip(i + 1)));
            done.push(cur);
            cur = Vec::new();
            assert(split_ws(v@) =~= chars_list_view(done@) + glue(cur@, split_ws(v@.skip(i + 1))));
        } else {
            let ghost old_cur = cur@;
            cur.push(v[i]);
            let ghost r = split_ws(v@.skip(i + 1));
            assert(old_cur + (seq![t[0]] + r[0]) =~= cur@ + r[0]);
            assert(glue(old_cur, split_ws(t)) =~= glue(cur@, r));
        }
        i = i + 1;
    }
    assert(v@.skip(i as int) =~= Seq::<char>::empty());
    done.push(cur);
    assert(split_ws(v@) =~= chars_list_view(done@));
    done
}

/// The white space separated words of `v`.
pub fn words_of(v: &Vec<char>) -> (r: Vec<Vec<char>>)
    ensures
        chars_list_view(r@) == words(v@),
{
    let pieces = split_ws_chars(v);
    let ghost p = chars_list_view(pieces@);
    let mut out: Vec<Vec<char>> = Vec::new();
    let mut i: usize = 0;
    while i < pieces.len()
        invariant
            i <= pieces.len(),
            p == chars_list_view(pieces@),
            chars_list_view(out@) == p.take(i as int).filter(|w: Seq<char>| w.len() > 0),
        decreases pieces.len() - i,
    {
        let ghost before = chars_list_view(out@);
        let keep = pieces[i].len() > 0;
        if keep {
            out.push(pieces[i].clone());
        }
        proof {
            reveal_with_fuel(Seq::<_>::filter, 1);
            let ghost t = p.take(i + 1);
            assert(t.drop_last() =~= p.take(i as int));
            assert(t.last() == pieces@[i as int]@);
            if keep {
                assert(chars_list_view(out@) =~= before.push(t.last()));
            } else {
                assert(chars_list_view(out@) =~= before);
            }
        }
        i = i + 1;
    }
    assert(p.take(pieces.len() as int) =~= p);
    out
}

/// `line` without one trailing carriage return.
pub fn strip_cr_chars(line: &Vec<char>) -> (r: Vec<char>)
    ensures
        r@ == strip_cr(line@),
{
    if line.len() > 0 && line[line.len() - 1] == '\r' {
        slice_chars(line, 0, line.len() - 1)
    } else {
        slice_chars(line, 0, line.len())
    }
}

/// The lines of `v`.
pub fn lines_of(v: &Vec<char>) -> (r: Vec<Vec<char>>)
    ensures
        chars_list_view(r@) == lines(v@),
{
    let pieces = split_chars(v, '\n');
    let ghost p = chars_list_view(pieces@);
    proof {
        lemma_split_on_nonempty(v@, '\n');
    }
    let n = pieces.len() - 1;
    let mut out: Vec<Vec<char>> = Vec::new();
    let mut i: usize = 0;
    while i < n
        invariant
            n == pieces.len() - 1,
            i <= n,
            p == chars_list_view(pieces@),
            out@.len() == i,
            forall|k: int| 0 <= k < i ==> (#[trigger] out@[k])@ == strip_cr(p[k]),
        decreases n - i,
    {
        out.push(strip_cr_chars(&pieces[i]));
        i = i + 1;
    }
    let ghost body = p.drop_last().map_values(|l: Seq<char>| strip_cr(l));
    assert(chars_list_view(out@) =~= body);
    if pieces[n].len() > 0 {
        out.push(pieces[n].clone());
        assert(chars_list_view(out@) =~= body.push(p.last()));
    }
    out
}


/// The texts of `list` joined by `sep` (`[T]::join`).
pub open spec fn join(list: Seq<Seq<char>>, sep: Seq<char>) -> Seq<char>
    decreases list.len(),
{
    if list.len() == 0 {
        seq![]
    } else if list.len() == 1 {
        list[0]
    } else {
        join(list.drop_last(), sep) + sep + list.last()
    }
}

/// The strings of `list` joined by `sep`.
pub fn join_strings(list: &Vec<String>, sep: &str) -> (r: String)
    ensures
        r@ == join(string_list_view(list@), sep@),
{
    let ghost l = string_list_view(list@);
    let mut r = String::new();
    let mut i: usize = 0;
    while i < list.len()
        invariant
            i <= list.len(),
            l == string_list_view(list@),
            r@ == join(l.take(i as int), sep@),
        decreases list.len() - i,
    {
        assert(l.take(i + 1).drop_last() =~= l.take(i as int));
        if i != 0 {
            r.append(sep);
        } else {
            assert(r@ =~= Seq::<char>::empty());
        }
        r.append(list[i].as_str());
        i = i + 1;
        assert(r@ =~= join(l.take(i as int), sep@));
    }
    assert(l.take(list.len() as int) =~= l);
    r
}

/// `c` is one of the ASCII digits `0` to `9`.
pub open spec fn is_digit_char(c: char) -> bool {
    48 <= (c as u32) && (c as u32) <= 57
}

/// The number the decimal digits `s` write, most significant first.
pub open spec fn digits_value(s: Seq<char>) -> int
    decreases s.len(),
{
    if s.len() == 0 {
        0
    } else {
        digits_value(s.drop_last()) * 10 + ((s.last() as u32) - 48)
    }
}

/// `s` without one leading `+`.
pub open spec fn unsigned_digits(s: Seq<char>) -> Seq<char> {
    if s.len() > 0 && s[0] == '+' {
        s.drop_first()
    } else {
        s
    }
}

/// Every character of `d` is a decimal digit.
pub open spec fn all_digits(d: Seq<char>) -> bool {
    forall|i: int| 0 <= i < d.len() ==> is_digit_char(#[trigger] d[i])
}

/// What `usize::from_str` makes of `s`: an optional `+`, then one or more
/// decimal digits whose number fits in a `usize`.
pub open spec fn parse_usize_spec(s: Seq<char>) -> Option<int> {
    let d = unsigned_digits(s);
    if d.len() == 0 || !all_digits(d) || digits_value(d) > usize::MAX {
        None
    } else {
        Some(digits_value(d))
    }
}

proof fn lemma_digits_value_grows(d: Seq<char>, j: int, k: int)
    requires
        0 <= j <= k <= d.len(),
        forall|i: int| 0 <= i < d.len() ==> is_digit_char(#[trigger] d[i]),
    ensures
        0 <= digits_value(d.take(j)) <= digits_value(d.take(k)),
    decreases k - j,
{
    if j < k {
        lemma_digits_value_grows(d, j, k - 1);
        assert(d.take(k).drop_last() =~= d.take(k - 1));
        assert(is_digit_char(d[k - 1]));
    } else {
        lemma_digits_value_nonneg(d.take(j));
    }
}

proof fn lemma_digits_value_nonneg(d: Seq<char>)
    requires
        forall|i: int| 0 <= i < d.len() ==> is_digit_char(#[trigger] d[i]),
    ensures
        0 <= digits_value(d),
    decreases d.len(),
{
    if d.len() > 0 {
        assert(is_digit_char(d.last()));
        lemma_digits_value_nonneg(d.drop_last());
    }
}

proof fn lemma_char_code(c: char)
    ensures
        c as u32 == c as int,
{
}

/// The number `s` writes in decimal (`usize::from_str`), or `None` where it is
/// not one or does not fit.
pub fn parse_usize(s: &str) -> (r: Option<usize>)
    ensures
        r matches Some(n) ==> parse_usize_spec(s@) == Some(n as int),
        r is None ==> parse_usize_spec(s@) is None,
{
    let cs = chars_of(s);
    let start: usize = if cs.len() > 0 && cs[0] == '+' { 1 } else { 0 };
    let ghost d = if cs@.len() > 0 && cs@[0] == '+' { cs@.drop_first() } else { cs@ };
    assert(d =~= cs@.skip(start as int));
    if start == cs.len() {
        return None;
    }
    let mut acc: usize = 0;
    let mut i: usize = start;
    assert(d.take(0) =~= Seq::<char>::empty());
    while i < cs.len()
        invariant
            start <= i <= cs.len(),
            cs@ == s@,
            d == cs@.skip(start as int),
            d == unsigned_digits(s@),
            d.len() > 0,
            acc as int == digits_value(d.take(i - start)),
            forall|k: int| 0 <= k < i - start ==> is_digit_char(#[trigger] d[k]),
        decreases cs.len() - i,
    {
        let c = cs[i];
        assert(d[i - start] == c);
        proof {
            lemma_char_code(c);
        }
        let code = c as u32;
        if code < 48 || code > 57 {
            assert(!is_digit_char(d[i - start]));
            assert(!all_digits(d));
            return None;
        }
        let digit = (code - 48) as usize;
        assert(d.take(i - start + 1).drop_last() =~= d.take(i - start));
        assert(d.take(i - start + 1).last() == c);
        match acc.checked_mul(10) {
            None => {
                proof {
                    if all_digits(d) {
                        lemma_digits_value_grows(d, i - start + 1, d.len() as int);
                        assert(d.take(d.len() as int) =~= d);
                        assert(acc * 10 > usize::MAX);
                        lemma_char_code(c);
                        assert(digits_value(d.take(i - start + 1)) == acc * 10 + (c as u32 - 48));
                    }
                }
                return None;
            },
            Some(m) => match m.checked_add(digit) {
                None => {
                    proof {
                        if all_digits(d) {
                            lemma_digits_value_grows(d, i - start + 1, d.len() as int);
                            assert(d.take(d.len() as int) =~= d);
                        }
                    }
                    return None;
                },
                Some(v) => {
                    acc = v;
                },
            },
        }
        i = i + 1;
    }
    assert(d.take(i - start) =~= d);
    Some(acc)
}

} // verus!
