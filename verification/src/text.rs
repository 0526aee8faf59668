//! Character-level text operations with their mathematical meaning.
use vstd::prelude::*;

verus! {

/// The Unicode `White_Space` property (PropList.txt).
pub open spec fn is_ws(c: char) -> bool {
    let v = c as u32;
    (0x09 <= v <= 0x0d) || v == 0x20 || v == 0x85 || v == 0xa0 || v == 0x1680
        || (0x2000 <= v <= 0x200a) || v == 0x2028 || v == 0x2029 || v == 0x202f
        || v == 0x205f || v == 0x3000
}

/// Every character is white space (the text trims to nothing).
pub open spec fn blank(s: Seq<char>) -> bool {
    forall|i: int| 0 <= i < s.len() ==> is_ws(#[trigger] s[i])
}

pub open spec fn trim_start(s: Seq<char>) -> Seq<char>
    decreases s.len(),
{
    if s.len() > 0 && is_ws(s[0]) {
        trim_start(s.drop_first())
    } else {
        s
    }
}

pub open spec fn trim_end(s: Seq<char>) -> Seq<char>
    decreases s.len(),
{
    if s.len() > 0 && is_ws(s.last()) {
        trim_end(s.drop_last())
    } else {
        s
    }
}

/// `str::trim`: leading and trailing white space removed.
pub open spec fn trim(s: Seq<char>) -> Seq<char> {
    trim_end(trim_start(s))
}

pub open spec fn is_prefix(p: Seq<char>, s: Seq<char>) -> bool {
    p.len() <= s.len() && s.subrange(0, p.len() as int) == p
}

pub open spec fn occurs_at(s: Seq<char>, p: Seq<char>, i: int) -> bool {
    0 <= i && i + p.len() <= s.len() && s.subrange(i, i + p.len()) == p
}

/// `p` occurs in `s` as a contiguous piece.
pub open spec fn contains_seq(s: Seq<char>, p: Seq<char>) -> bool {
    exists|i: int| occurs_at(s, p, i)
}

/// Pieces joined with a separator between consecutive pieces.
pub open spec fn join(parts: Seq<Seq<char>>, sep: Seq<char>) -> Seq<char>
    decreases parts.len(),
{
    if parts.len() == 0 {
        Seq::empty()
    } else if parts.len() == 1 {
        parts[0]
    } else {
        join(parts.drop_last(), sep) + sep + parts.last()
    }
}

pub open spec fn digit(d: nat) -> char {
    if d == 0 { '0' } else if d == 1 { '1' } else if d == 2 { '2' } else if d == 3 { '3' }
    else if d == 4 { '4' } else if d == 5 { '5' } else if d == 6 { '6' } else if d == 7 { '7' }
    else if d == 8 { '8' } else { '9' }
}

/// Decimal notation of a natural number, as `{}` prints it.
pub open spec fn decimal(n: nat) -> Seq<char>
    decreases n,
{
    if n < 10 {
        seq![digit(n)]
    } else {
        decimal(n / 10).push(digit(n % 10))
    }
}

#[verifier::external_body]
fn push_char(s: &mut String, c: char)
    ensures
        final(s)@ == old(s)@.push(c),
{
    s.push(c);
}

/// The characters of a text.
pub fn chars_of(s: &str) -> (v: Vec<char>)
    ensures
        v@ == s@,
{
    let mut v: Vec<char> = Vec::new();
    for c in it: s.chars()
        invariant
            v@ == it.seq().take(it.index() as int),
    {
        v.push(c);
    }
    v
}

/// The text of `v[from..to]`.
pub fn string_of_range(v: &Vec<char>, from: usize, to: usize) -> (s: String)
    requires
        from <= to <= v.len(),
    ensures
        s@ == v@.subrange(from as int, to as int),
{
    let mut s = String::new();
    let mut i: usize = from;
    while i < to
        invariant
            from <= i <= to <= v.len(),
            s@ == v@.subrange(from as int, i as int),
        decreases to - i,
    {
        push_char(&mut s, v[i]);
        i = i + 1;
        assert(s@ =~= v@.subrange(from as int, i as int));
    }
    s
}

pub fn string_of(v: &Vec<char>) -> (s: String)
    ensures
        s@ == v@,
{
    let s = string_of_range(v, 0, v.len());
    assert(v@.subrange(0, v@.len() as int) =~= v@);
    s
}

/// A fresh `String` holding `s`.
pub fn owned(s: &str) -> (r: String)
    ensures
        r@ == s@,
{
    s.to_owned()
}

/// `s` followed by `t`.
pub fn append(s: &mut String, t: &str)
    ensures
        final(s)@ == old(s)@ + t@,
{
    s.append(t);
}

pub fn push(s: &mut String, c: char)
    ensures
        final(s)@ == old(s)@.push(c),
{
    push_char(s, c);
}

pub fn is_whitespace(c: char) -> (b: bool)
    ensures
        b == is_ws(c),
{
    let v = c as u32;
    (0x09 <= v && v <= 0x0d) || v == 0x20 || v == 0x85 || v == 0xa0 || v == 0x1680 || (0x2000
        <= v && v <= 0x200a) || v == 0x2028 || v == 0x2029 || v == 0x202f || v == 0x205f || v
        == 0x3000
}

/// Whether the text is empty after trimming.
pub fn is_blank(s: &str) -> (b: bool)
    ensures
        b == blank(s@),
        b == (trim(s@).len() == 0),
{
    proof { lemma_blank_trim(s@); }
    let v = chars_of(s);
    let mut i: usize = 0;
    while i < v.len()
        invariant
            i <= v.len(),
            v@ == s@,
            forall|j: int| 0 <= j < i ==> is_ws(#[trigger] v@[j]),
        decreases v.len() - i,
    {
        if !is_whitespace(v[i]) {
            assert(!is_ws(s@[i as int]));
            proof { lemma_blank_trim(s@); }
            return false;
        }
        i = i + 1;
    }
    true
}

pub proof fn lemma_trim_start_len(s: Seq<char>)
    ensures
        trim_start(s).len() <= s.len(),
        trim_start(s).len() == 0 <==> blank(s),
        trim_start(s).len() > 0 ==> !is_ws(trim_start(s)[0]),
        trim_start(s) == s.subrange(s.len() - trim_start(s).len(), s.len() as int),
    decreases s.len(),
{
    if s.len() > 0 && is_ws(s[0]) {
        lemma_trim_start_len(s.drop_first());
        let t = s.drop_first();
        if blank(t) {
            assert forall|i: int| 0 <= i < s.len() implies is_ws(#[trigger] s[i]) by {
                if i > 0 { assert(s[i] == t[i - 1]); }
            }
        }
        if blank(s) {
            assert forall|i: int| 0 <= i < t.len() implies is_ws(#[trigger] t[i]) by {
                assert(t[i] == s[i + 1]);
            }
        }
        assert(trim_start(t) =~= s.subrange(s.len() - trim_start(t).len(), s.len() as int));
    } else {
        if s.len() > 0 {
            assert(!is_ws(s[0]));
        }
        assert(s.subrange(0, s.len() as int) =~= s);
    }
}

pub proof fn lemma_trim_end_len(s: Seq<char>)
    ensures
        trim_end(s).len() <= s.len(),
        trim_end(s).len() == 0 <==> blank(s),
        trim_end(s).len() > 0 ==> !is_ws(trim_end(s).last()),
        trim_end(s) == s.subrange(0, trim_end(s).len() as int),
    decreases s.len(),
{
    if s.len() > 0 && is_ws(s.last()) {
        lemma_trim_end_len(s.drop_last());
        let t = s.drop_last();
        if blank(t) {
            assert forall|i: int| 0 <= i < s.len() implies is_ws(#[trigger] s[i]) by {
                if i < s.len() - 1 { assert(s[i] == t[i]); }
            }
        }
        if blank(s) {
            assert forall|i: int| 0 <= i < t.len() implies is_ws(#[trigger] t[i]) by {
                assert(t[i] == s[i]);
            }
        }
        assert(trim_end(t) =~= s.subrange(0, trim_end(t).len() as int));
    } else {
        assert(s.subrange(0, s.len() as int) =~= s);
    }
}

pub proof fn lemma_blank_trim(s: Seq<char>)
    ensures
        blank(s) <==> trim(s).len() == 0,
{
    lemma_trim_start_len(s);
    lemma_trim_end_len(trim_start(s));
    let t = trim_start(s);
    if blank(t) && t.len() > 0 {
        assert(is_ws(t[0]));
    }
}

} // verus!

verus! {

/// Character-wise equality of two texts.
pub fn str_eq(a: &str, b: &str) -> (r: bool)
    ensures
        r == (a@ == b@),
{
    let x = chars_of(a);
    let y = chars_of(b);
    if x.len() != y.len() {
        return false;
    }
    let mut i: usize = 0;
    while i < x.len()
        invariant
            x@ == a@,
            y@ == b@,
            x.len() == y.len(),
            i <= x.len(),
            forall|j: int| 0 <= j < i ==> x@[j] == y@[j],
        decreases x.len() - i,
    {
        if x[i] != y[i] {
            return false;
        }
        i = i + 1;
    }
    assert(x@ =~= y@);
    true
}

pub open spec fn opt_view(o: Option<String>) -> Option<Seq<char>> {
    match o {
        Some(s) => Some(s@),
        None => None,
    }
}

pub fn clone_opt(o: &Option<String>) -> (r: Option<String>)
    ensures
        r == *o,
{
    match o {
        Some(s) => Some(s.clone()),
        None => None,
    }
}

} // verus!

verus! {

proof fn lemma_trim_start_skip(s: Seq<char>, i: int)
    requires
        0 <= i <= s.len(),
        forall|j: int| 0 <= j < i ==> is_ws(#[trigger] s[j]),
    ensures
        trim_start(s) == trim_start(s.subrange(i, s.len() as int)),
    decreases i,
{
    if i > 0 {
        assert(is_ws(s[0]));
        let t = s.drop_first();
        assert forall|j: int| 0 <= j < i - 1 implies is_ws(#[trigger] t[j]) by {
            assert(t[j] == s[j + 1]);
        }
        lemma_trim_start_skip(t, i - 1);
        assert(t.subrange(i - 1, t.len() as int) =~= s.subrange(i, s.len() as int));
    } else {
        assert(s.subrange(0, s.len() as int) =~= s);
    }
}

proof fn lemma_trim_end_skip(s: Seq<char>, e: int)
    requires
        0 <= e <= s.len(),
        forall|j: int| e <= j < s.len() ==> is_ws(#[trigger] s[j]),
    ensures
        trim_end(s) == trim_end(s.subrange(0, e)),
    decreases s.len() - e,
{
    if e < s.len() {
        assert(is_ws(s[s.len() - 1]));
        let t = s.drop_last();
        assert forall|j: int| e <= j < t.len() implies is_ws(#[trigger] t[j]) by {
            assert(t[j] == s[j]);
        }
        lemma_trim_end_skip(t, e);
        assert(t.subrange(0, e) =~= s.subrange(0, e));
    } else {
        assert(s.subrange(0, e) =~= s);
    }
}

/// Index of the first character that is not white space (or the length).
fn first_non_ws(v: &Vec<char>) -> (i: usize)
    ensures
        i <= v.len(),
        forall|j: int| 0 <= j < i ==> is_ws(#[trigger] v@[j]),
        i < v.len() ==> !is_ws(v@[i as int]),
{
    let mut i: usize = 0;
    while i < v.len() && is_whitespace(v[i])
        invariant
            i <= v.len(),
            forall|j: int| 0 <= j < i ==> is_ws(#[trigger] v@[j]),
        decreases v.len() - i,
    {
        i = i + 1;
    }
    i
}

/// End of the text without its trailing white space.
fn end_non_ws(v: &Vec<char>, from: usize) -> (e: usize)
    requires
        from <= v.len(),
    ensures
        from <= e <= v.len(),
        forall|j: int| e <= j < v.len() ==> is_ws(#[trigger] v@[j]),
        e > from ==> !is_ws(v@[e - 1]),
{
    let mut e: usize = v.len();
    while e > from && is_whitespace(v[e - 1])
        invariant
            from <= e <= v.len(),
            forall|j: int| e <= j < v.len() ==> is_ws(#[trigger] v@[j]),
        decreases e,
    {
        e = e - 1;
    }
    e
}

/// `str::trim`.
pub fn trimmed(s: &str) -> (r: String)
    ensures
        r@ == trim(s@),
{
    let v = chars_of(s);
    let i = first_non_ws(&v);
    let e = end_non_ws(&v, i);
    proof {
        lemma_trim_start_skip(s@, i as int);
        let t = s@.subrange(i as int, s@.len() as int);
        if i < v.len() {
            assert(t[0] == s@[i as int]);
        }
        assert(trim_start(t) == t);
        assert forall|j: int| e - i <= j < t.len() implies is_ws(#[trigger] t[j]) by {
            assert(t[j] == s@[j + i]);
        }
        lemma_trim_end_skip(t, e - i);
        let w = t.subrange(0, e - i);
        if e > i {
            assert(w.last() == s@[e - 1]);
        }
        assert(trim_end(w) == w);
        assert(w =~= s@.subrange(i as int, e as int));
    }
    string_of_range(&v, i, e)
}

/// `str::trim_end`.
pub fn trimmed_end(s: &str) -> (r: String)
    ensures
        r@ == trim_end(s@),
{
    let v = chars_of(s);
    let e = end_non_ws(&v, 0);
    proof {
        lemma_trim_end_skip(s@, e as int);
        let w = s@.subrange(0, e as int);
        if e > 0 {
            assert(w.last() == s@[e - 1]);
        }
        assert(trim_end(w) == w);
    }
    string_of_range(&v, 0, e)
}

} // verus!

verus! {

pub open spec fn strip_prefix_of(s: Seq<char>, p: Seq<char>) -> Option<Seq<char>> {
    if is_prefix(p, s) {
        Some(s.subrange(p.len() as int, s.len() as int))
    } else {
        None
    }
}

pub fn starts_with(s: &str, p: &str) -> (r: bool)
    ensures
        r == is_prefix(p@, s@),
{
    let x = chars_of(s);
    let y = chars_of(p);
    if y.len() > x.len() {
        return false;
    }
    let mut i: usize = 0;
    while i < y.len()
        invariant
            x@ == s@,
            y@ == p@,
            y.len() <= x.len(),
            i <= y.len(),
            forall|j: int| 0 <= j < i ==> x@[j] == y@[j],
        decreases y.len() - i,
    {
        if x[i] != y[i] {
            assert(s@.subrange(0, p@.len() as int)[i as int] != p@[i as int]);
            return false;
        }
        i = i + 1;
    }
    assert(s@.subrange(0, p@.len() as int) =~= p@);
    true
}

/// `str::strip_prefix`.
pub fn strip_prefix(s: &str, p: &str) -> (r: Option<String>)
    ensures
        opt_view(r) == strip_prefix_of(s@, p@),
{
    if starts_with(s, p) {
        let x = chars_of(s);
        let y = chars_of(p);
        Some(string_of_range(&x, y.len(), x.len()))
    } else {
        None
    }
}

/// The texts joined with `sep` between consecutive ones.
pub fn join_strings(parts: &Vec<String>, sep: &str) -> (r: String)
    ensures
        r@ == join(parts@.map_values(|s: String| s@), sep@),
{
    let ghost v = parts@.map_values(|s: String| s@);
    let mut r = String::new();
    let mut i: usize = 0;
    while i < parts.len()
        invariant
            i <= parts.len(),
            v == parts@.map_values(|s: String| s@),
            r@ == join(v.take(i as int), sep@),
        decreases parts.len() - i,
    {
        if i > 0 {
            append(&mut r, sep);
        }
        append(&mut r, parts[i].as_str());
        proof {
            assert(v.take(i + 1).drop_last() =~= v.take(i as int));
            if i == 0 {
                assert(join(v.take(0), sep@) =~= Seq::<char>::empty());
            }
        }
        i = i + 1;
    }
    assert(v.take(i as int) =~= v);
    r
}

} // verus!

verus! {

/// Position of the first line feed, or the length when there is none.
pub open spec fn newline_index(s: Seq<char>) -> nat
    decreases s.len(),
{
    if s.len() == 0 {
        0
    } else if s[0] == '\n' {
        0
    } else {
        1 + newline_index(s.drop_first())
    }
}

/// A line without the carriage return of a CRLF ending.
pub open spec fn strip_cr(line: Seq<char>) -> Seq<char> {
    if line.len() > 0 && line.last() == '\r' {
        line.drop_last()
    } else {
        line
    }
}

/// `str::lines`: split at `\n` or `\r\n`; a final line ending adds no line.
pub open spec fn lines(s: Seq<char>) -> Seq<Seq<char>>
    decreases s.len(),
{
    if s.len() == 0 {
        Seq::empty()
    } else {
        let i = newline_index(s);
        if i < s.len() {
            seq![strip_cr(s.take(i as int))] + lines(s.skip(i + 1 as int))
        } else {
            seq![s]
        }
    }
}

proof fn lemma_newline_index_concat(a: Seq<char>, b: Seq<char>)
    requires
        forall|j: int| 0 <= j < a.len() ==> a[j] != '\n',
    ensures
        newline_index(a + b) == a.len() + newline_index(b),
    decreases a.len(),
{
    if a.len() > 0 {
        let t = a.drop_first();
        assert forall|j: int| 0 <= j < t.len() implies t[j] != '\n' by {
            assert(t[j] == a[j + 1]);
        }
        lemma_newline_index_concat(t, b);
        assert((a + b).drop_first() =~= t + b);
    } else {
        assert(a + b =~= b);
    }
}

proof fn lemma_newline_index_bound(s: Seq<char>)
    ensures
        newline_index(s) <= s.len(),
        newline_index(s) < s.len() ==> s[newline_index(s) as int] == '\n',
        forall|j: int| 0 <= j < newline_index(s) ==> s[j] != '\n',
    decreases s.len(),
{
    if s.len() > 0 && s[0] != '\n' {
        lemma_newline_index_bound(s.drop_first());
        assert forall|j: int| 0 <= j < newline_index(s) implies s[j] != '\n' by {
            if j > 0 {
                assert(s[j] == s.drop_first()[j - 1]);
            }
        }
    }
}

/// The lines of a text.
pub fn lines_of(s: &str) -> (r: Vec<String>)
    ensures
        r@.map_values(|x: String| x@) == lines(s@),
{
    let v = chars_of(s);
    let mut out: Vec<String> = Vec::new();
    let mut current: Vec<char> = Vec::new();
    let mut i: usize = 0;
    proof {
        assert(current@ + s@.skip(0) =~= s@);
        assert(out@.map_values(|x: String| x@) + lines(s@) =~= lines(s@));
    }
    while i < v.len()
        invariant
            i <= v.len(),
            v@ == s@,
            forall|j: int| 0 <= j < current.len() ==> current@[j] != '\n',
            lines(s@) == out@.map_values(|x: String| x@) + lines(current@ + s@.skip(i as int)),
        decreases v.len() - i,
    {
        let c = v[i];
        let ghost rest = s@.skip(i as int);
        proof {
            assert(rest[0] == c);
            assert(rest.drop_first() =~= s@.skip(i + 1));
        }
        if c == '\n' {
            let n = current.len();
            let line = if n > 0 && current[n - 1] == '\r' {
                string_of_range(&current, 0, n - 1)
            } else {
                string_of(&current)
            };
            proof {
                let u = current@ + rest;
                lemma_newline_index_concat(current@, rest);
                assert(newline_index(u) == current@.len());
                assert(u.take(current@.len() as int) =~= current@);
                assert(u.skip(current@.len() + 1 as int) =~= s@.skip(i + 1));
                assert(Seq::<char>::empty() + s@.skip(i + 1) =~= s@.skip(i + 1));
                assert(line@ == strip_cr(current@)) by {
                    if n > 0 && current@[n - 1] == '\r' {
                        assert(current@.subrange(0, n - 1) =~= current@.drop_last());
                    }
                }
            }
            let ghost before = out@.map_values(|x: String| x@);
            proof {
                let u = current@ + rest;
                assert(lines(u) == seq![strip_cr(current@)] + lines(s@.skip(i + 1)));
                assert(lines(s@) =~= before.push(line@) + lines(s@.skip(i + 1)));
            }
            out.push(line);
            current = Vec::new();
            proof {
                assert(out@.map_values(|x: String| x@) =~= before.push(line@));
                assert(current@ + s@.skip(i + 1) =~= s@.skip(i + 1));
                assert(lines(s@) == out@.map_values(|x: String| x@) + lines(current@ + s@.skip(i + 1)));
            }
        } else {
            let ghost old_cur = current@;
            current.push(c);
            proof {
                assert(current@ + s@.skip(i + 1) =~= old_cur + rest);
                assert(lines(s@) == out@.map_values(|x: String| x@) + lines(current@ + s@.skip(i + 1)));
            }
        }
        i = i + 1;
    }
    proof {
        assert(s@.skip(i as int) =~= Seq::<char>::empty());
        assert(current@ + s@.skip(i as int) =~= current@);
        lemma_newline_index_concat(current@, Seq::<char>::empty());
        assert(current@ + Seq::<char>::empty() =~= current@);
    }
    if current.len() > 0 {
        let line = string_of(&current);
        let ghost before = out@.map_values(|x: String| x@);
        out.push(line);
        assert(out@.map_values(|x: String| x@) =~= before.push(line@));
    } else {
        proof {
            assert(out@.map_values(|x: String| x@) + Seq::<Seq<char>>::empty() =~= out@.map_values(|x: String| x@));
        }
    }
    out
}

} // verus!

verus! {

fn digit_char(d: u64) -> (c: char)
    requires
        d < 10,
    ensures
        c == digit(d as nat),
{
    if d == 0 { '0' } else if d == 1 { '1' } else if d == 2 { '2' } else if d == 3 { '3' }
    else if d == 4 { '4' } else if d == 5 { '5' } else if d == 6 { '6' } else if d == 7 { '7' }
    else if d == 8 { '8' } else { '9' }
}

/// `n` in decimal notation.
pub fn decimal_string(n: u64) -> (r: String)
    ensures
        r@ == decimal(n as nat),
    decreases n,
{
    if n < 10 {
        let mut r = String::new();
        push(&mut r, digit_char(n));
        assert(r@ =~= seq![digit(n as nat)]);
        r
    } else {
        let mut r = decimal_string(n / 10);
        push(&mut r, digit_char(n % 10));
        r
    }
}

/// Bytes of a character in UTF-8.
pub open spec fn utf8_len(c: char) -> nat {
    let v = c as u32;
    if v < 0x80 { 1 } else if v < 0x800 { 2 } else if v < 0x10000 { 3 } else { 4 }
}

/// The longest beginning of `s` whose UTF-8 encoding fits in `budget` bytes
/// (the prefix cut at `floor_char_boundary(budget)`).
pub open spec fn prefix_within(s: Seq<char>, budget: nat) -> Seq<char>
    decreases s.len(),
{
    if s.len() == 0 || utf8_len(s[0]) > budget {
        Seq::empty()
    } else {
        seq![s[0]] + prefix_within(s.drop_first(), (budget - utf8_len(s[0])) as nat)
    }
}

fn char_utf8_len(c: char) -> (n: u64)
    ensures
        n == utf8_len(c),
{
    let v = c as u32;
    if v < 0x80 { 1 } else if v < 0x800 { 2 } else if v < 0x10000 { 3 } else { 4 }
}

proof fn lemma_prefix_within_step(s: Seq<char>, i: int, budget: nat)
    requires
        0 <= i < s.len(),
        utf8_len(s[i]) <= budget,
    ensures
        prefix_within(s.skip(i), budget) == seq![s[i]] + prefix_within(s.skip(i + 1), (budget - utf8_len(s[i])) as nat),
{
    assert(s.skip(i).drop_first() =~= s.skip(i + 1));
}

/// The beginning of `s` that fits in `budget` UTF-8 bytes, whole characters only.
pub fn prefix_within_bytes(s: &str, budget: u64) -> (r: String)
    ensures
        r@ == prefix_within(s@, budget as nat),
{
    let v = chars_of(s);
    let mut left = budget;
    let mut i: usize = 0;
    proof {
        assert(s@.skip(0) =~= s@);
    }
    while i < v.len() && char_utf8_len(v[i]) <= left
        invariant
            i <= v.len(),
            v@ == s@,
            left <= budget,
            prefix_within(s@, budget as nat) == v@.take(i as int) + prefix_within(v@.skip(i as int), left as nat),
        decreases v.len() - i,
    {
        proof {
            lemma_prefix_within_step(v@, i as int, left as nat);
            assert(v@.take(i + 1) =~= v@.take(i as int) + seq![v@[i as int]]);
        }
        left = left - char_utf8_len(v[i]);
        i = i + 1;
    }
    proof {
        if i < v.len() {
            assert(v@.skip(i as int)[0] == v@[i as int]);
        }
        assert(prefix_within(v@.skip(i as int), left as nat) =~= Seq::<char>::empty());
    }
    string_of_range(&v, 0, i)
}

/// Bytes of the UTF-8 encoding of a text (`str::len`).
pub open spec fn utf8_bytes(s: Seq<char>) -> nat
    decreases s.len(),
{
    if s.len() == 0 {
        0
    } else {
        utf8_bytes(s.drop_last()) + utf8_len(s.last())
    }
}

pub proof fn lemma_utf8_bytes_concat(a: Seq<char>, b: Seq<char>)
    ensures
        utf8_bytes(a + b) == utf8_bytes(a) + utf8_bytes(b),
    decreases b.len(),
{
    if b.len() == 0 {
        assert(a + b =~= a);
    } else {
        lemma_utf8_bytes_concat(a, b.drop_last());
        assert((a + b).drop_last() =~= a + b.drop_last());
    }
}

/// A text takes at least one byte per character.
pub proof fn lemma_utf8_bytes_len(s: Seq<char>)
    ensures
        utf8_bytes(s) >= s.len(),
    decreases s.len(),
{
    if s.len() > 0 {
        lemma_utf8_bytes_len(s.drop_last());
    }
}

/// `n`, or `cap` where `n` exceeds it.
pub open spec fn capped(n: nat, cap: nat) -> nat {
    if n < cap { n } else { cap }
}

/// The byte length of `s`, counted up to `cap`.
pub fn utf8_bytes_capped(s: &str, cap: usize) -> (r: usize)
    ensures
        r == capped(utf8_bytes(s@), cap as nat),
{
    let v = chars_of(s);
    let mut n: usize = 0;
    let mut i: usize = 0;
    while i < v.len() && n < cap
        invariant
            i <= v.len(),
            v@ == s@,
            n == capped(utf8_bytes(v@.take(i as int)), cap as nat),
        decreases v.len() - i,
    {
        let w = char_utf8_len(v[i]) as usize;
        proof {
            assert(v@.take(i + 1).drop_last() =~= v@.take(i as int));
        }
        n = if cap - n < w { cap } else { n + w };
        i = i + 1;
    }
    proof {
        lemma_utf8_bytes_concat(v@.take(i as int), v@.skip(i as int));
        assert(v@.take(i as int) + v@.skip(i as int) =~= v@);
        if i == v.len() {
            assert(v@.take(i as int) =~= v@);
        }
    }
    n
}

/// One quoted Markdown line.
pub open spec fn quote_line(line: Seq<char>) -> Seq<char> {
    if line.len() == 0 { ">"@ } else { "> "@ + line }
}

/// `text` trimmed and quoted line by line.
pub open spec fn markdown_quote_of(text: Seq<char>) -> Seq<char> {
    join(lines(trim(text)).map_values(|l: Seq<char>| quote_line(l)), "\n"@)
}

/// `text` as a Markdown block quote.
pub fn markdown_quote(text: &str) -> (r: String)
    ensures
        r@ == markdown_quote_of(text@),
{
    let t = trimmed(text);
    let ls = lines_of(t.as_str());
    let ghost lv = ls@.map_values(|x: String| x@);
    let mut quoted: Vec<String> = Vec::new();
    let mut i: usize = 0;
    while i < ls.len()
        invariant
            i <= ls.len(),
            lv == ls@.map_values(|x: String| x@),
            lv == lines(trim(text@)),
            quoted@.map_values(|x: String| x@) == lv.take(i as int).map_values(|l: Seq<char>| quote_line(l)),
        decreases ls.len() - i,
    {
        let line = &ls[i];
        let q = if line.as_str().is_empty() {
            owned(">")
        } else {
            let mut q = owned("> ");
            append(&mut q, line.as_str());
            q
        };
        assert(q@ == quote_line(ls@[i as int]@));
        let ghost before = quoted@.map_values(|x: String| x@);
        quoted.push(q);
        proof {
            assert(lv[i as int] == ls@[i as int]@);
            assert(quoted@.map_values(|x: String| x@) =~= before.push(quote_line(lv[i as int])));
            assert(quoted@.map_values(|x: String| x@) =~= lv.take(i + 1).map_values(|l: Seq<char>| quote_line(l)));
        }
        i = i + 1;
    }
    assert(lv.take(i as int) =~= lv);
    join_strings(&quoted, "\n")
}

} // verus!

verus! {

/// Position of the first `c`, or the length when there is none.
pub open spec fn char_index(s: Seq<char>, c: char) -> nat
    decreases s.len(),
{
    if s.len() == 0 {
        0
    } else if s[0] == c {
        0
    } else {
        1 + char_index(s.drop_first(), c)
    }
}

/// `str::split(c)`: the pieces between occurrences of `c` (empty ones included).
pub open spec fn split_at_char(s: Seq<char>, c: char) -> Seq<Seq<char>>
    decreases s.len(),
{
    let i = char_index(s, c);
    if i < s.len() {
        seq![s.take(i as int)] + split_at_char(s.skip(i + 1 as int), c)
    } else {
        seq![s]
    }
}

proof fn lemma_char_index_concat(a: Seq<char>, b: Seq<char>, c: char)
    requires
        forall|j: int| 0 <= j < a.len() ==> a[j] != c,
    ensures
        char_index(a + b, c) == a.len() + char_index(b, c),
    decreases a.len(),
{
    if a.len() > 0 {
        let t = a.drop_first();
        assert forall|j: int| 0 <= j < t.len() implies t[j] != c by {
            assert(t[j] == a[j + 1]);
        }
        lemma_char_index_concat(t, b, c);
        assert((a + b).drop_first() =~= t + b);
    } else {
        assert(a + b =~= b);
    }
}

pub fn split_char(s: &str, sep: char) -> (r: Vec<String>)
    ensures
        r@.map_values(|x: String| x@) == split_at_char(s@, sep),
{
    let v = chars_of(s);
    let mut out: Vec<String> = Vec::new();
    let mut current: Vec<char> = Vec::new();
    let mut i: usize = 0;
    proof {
        assert(current@ + s@.skip(0) =~= s@);
        assert(out@.map_values(|x: String| x@) + split_at_char(s@, sep) =~= split_at_char(s@, sep));
    }
    while i < v.len()
        invariant
            i <= v.len(),
            v@ == s@,
            forall|j: int| 0 <= j < current.len() ==> current@[j] != sep,
            split_at_char(s@, sep) == out@.map_values(|x: String| x@) + split_at_char(current@ + s@.skip(i as int), sep),
        decreases v.len() - i,
    {
        let c = v[i];
        let ghost rest = s@.skip(i as int);
        proof {
            assert(rest[0] == c);
        }
        if c == sep {
            let piece = string_of(&current);
            let ghost before = out@.map_values(|x: String| x@);
            proof {
                let u = current@ + rest;
                lemma_char_index_concat(current@, rest, sep);
                assert(char_index(u, sep) == current@.len());
                assert(u.take(current@.len() as int) =~= current@);
                assert(u.skip(current@.len() + 1 as int) =~= s@.skip(i + 1));
                assert(split_at_char(u, sep) == seq![current@] + split_at_char(s@.skip(i + 1), sep));
                assert(split_at_char(s@, sep) =~= before.push(piece@) + split_at_char(s@.skip(i + 1), sep));
            }
            out.push(piece);
            current = Vec::new();
            proof {
                assert(out@.map_values(|x: String| x@) =~= before.push(piece@));
                assert(current@ + s@.skip(i + 1) =~= s@.skip(i + 1));
            }
        } else {
            let ghost old_cur = current@;
            current.push(c);
            proof {
                assert(rest.drop_first() =~= s@.skip(i + 1));
                assert(current@ + s@.skip(i + 1) =~= old_cur + rest);
            }
        }
        i = i + 1;
    }
    let piece = string_of(&current);
    let ghost before = out@.map_values(|x: String| x@);
    proof {
        assert(s@.skip(i as int) =~= Seq::<char>::empty());
        assert(current@ + s@.skip(i as int) =~= current@);
        lemma_char_index_concat(current@, Seq::<char>::empty(), sep);
        assert(current@ + Seq::<char>::empty() =~= current@);
        assert(split_at_char(current@, sep) == seq![current@]);
    }
    out.push(piece);
    proof {
        assert(out@.map_values(|x: String| x@) =~= before + seq![current@]);
    }
    out
}

} // verus!
