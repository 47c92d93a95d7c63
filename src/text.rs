//! Character-level text primitives: whitespace, trimming, line and token
//! splitting, decimal rendering.
use vstd::prelude::*;

verus! {

/// The characters with the Unicode `White_Space` property, which is what
/// `char::is_whitespace` and `str::trim` go by.
pub open spec fn is_ws(c: char) -> bool {
    let u = c as u32;
    ||| 0x09 <= u <= 0x0D
    ||| u == 0x20
    ||| u == 0x85
    ||| u == 0xA0
    ||| u == 0x1680
    ||| 0x2000 <= u <= 0x200A
    ||| u == 0x2028
    ||| u == 0x2029
    ||| u == 0x202F
    ||| u == 0x205F
    ||| u == 0x3000
}

pub fn is_white(c: char) -> (r: bool)
    ensures
        r == is_ws(c),
{
    let u = c as u32;
    (0x09 <= u && u <= 0x0D) || u == 0x20 || u == 0x85 || u == 0xA0 || u == 0x1680 || (0x2000
        <= u && u <= 0x200A) || u == 0x2028 || u == 0x2029 || u == 0x202F || u == 0x205F || u
        == 0x3000
}

/// The characters of a string, in order.
pub fn chars_of(s: &str) -> (r: Vec<char>)
    ensures
        r@ == s@,
{
    let mut r: Vec<char> = Vec::new();
    for c in it: s.chars()
        invariant
            r@ == it.seq().take(it.index()),
    {
        r.push(c);
    }
    r
}


/// Relies on `String::from_iter` over `&char`: the string holds the given
/// characters in order.
#[verifier::external_body]
pub(crate) fn string_of(cs: &[char]) -> (r: String)
    ensures
        r@ == cs@,
{
    String::from_iter(cs.iter())
}

pub open spec fn trim_start(s: Seq<char>) -> Seq<char>
    decreases s.len(),
{
    if s.len() > 0 && is_ws(s[0]) {
        trim_start(s.drop_first())
    } else {
        s
    }
}

pub open spec fn trim_end(s: Seq<char>) -> Seq<char>
    decreases s.len(),
{
    if s.len() > 0 && is_ws(s.last()) {
        trim_end(s.drop_last())
    } else {
        s
    }
}

/// `s` without its leading and trailing whitespace, as `str::trim` gives it.
pub open spec fn trim(s: Seq<char>) -> Seq<char> {
    trim_end(trim_start(s))
}

/// The bounds of `trim(s[lo..hi])` inside `s`.
pub fn trim_bounds(s: &Vec<char>, lo: usize, hi: usize) -> (r: (usize, usize))
    requires
        lo <= hi <= s.len(),
    ensures
        lo <= r.0 <= r.1 <= hi,
        s@.subrange(r.0 as int, r.1 as int) == trim(s@.subrange(lo as int, hi as int)),
{
    let mut i = lo;
    while i < hi && is_white(s[i])
        invariant
            lo <= i <= hi <= s.len(),
            trim_start(s@.subrange(lo as int, hi as int)) == trim_start(
                s@.subrange(i as int, hi as int),
            ),
        decreases hi - i,
    {
        assert(s@.subrange(i as int, hi as int).drop_first() =~= s@.subrange(
            i + 1,
            hi as int,
        ));
        i = i + 1;
    }
    let mut j = hi;
    while j > i && is_white(s[j - 1])
        invariant
            lo <= i <= j <= hi <= s.len(),
            trim_start(s@.subrange(lo as int, hi as int)) == s@.subrange(i as int, hi as int),
            trim_end(s@.subrange(i as int, hi as int)) == trim_end(
                s@.subrange(i as int, j as int),
            ),
        decreases j - i,
    {
        assert(s@.subrange(i as int, j as int).drop_last() =~= s@.subrange(
            i as int,
            j - 1,
        ));
        j = j - 1;
    }
    (i, j)
}

/// The pieces of `s` between line feeds; there is always at least one.
pub open spec fn split_nl(s: Seq<char>) -> Seq<Seq<char>>
    decreases s.len(),
{
    if s.len() == 0 {
        seq![Seq::empty()]
    } else {
        let init = split_nl(s.drop_last());
        if s.last() == '\n' {
            init.push(Seq::empty())
        } else {
            init.update(init.len() - 1, init.last().push(s.last()))
        }
    }
}

pub proof fn lemma_split_nl_nonempty(s: Seq<char>)
    ensures
        split_nl(s).len() >= 1,
    decreases s.len(),
{
    if s.len() > 0 {
        lemma_split_nl_nonempty(s.drop_last());
    }
}

/// A line without the carriage return of a `\r\n` ending.
pub open spec fn strip_cr(l: Seq<char>) -> Seq<char> {
    if l.len() > 0 && l.last() == '\r' {
        l.drop_last()
    } else {
        l
    }
}

/// The lines of `s` as `str::lines` yields them: split at `\n`, a `\r`
/// before the `\n` dropped, and no empty line after a final `\n`.
pub open spec fn lines(s: Seq<char>) -> Seq<Seq<char>> {
    let p = split_nl(s);
    let ended = p.drop_last().map_values(|l: Seq<char>| strip_cr(l));
    if p.last().len() == 0 {
        ended
    } else {
        ended.push(p.last())
    }
}

pub open spec fn views_of(v: Seq<Vec<char>>) -> Seq<Seq<char>> {
    v.map_values(|l: Vec<char>| l@)
}

pub fn split_lines(s: &Vec<char>) -> (r: Vec<Vec<char>>)
    ensures
        views_of(r@) == lines(s@),
{
    let mut done: Vec<Vec<char>> = Vec::new();
    let mut cur: Vec<char> = Vec::new();
    let mut i: usize = 0;
    proof {
        assert(s@.subrange(0, 0) =~= Seq::<char>::empty());
    }
    while i < s.len()
        invariant
            i <= s.len(),
            split_nl(s@.subrange(0, i as int)).len() >= 1,
            views_of(done@) =~= split_nl(s@.subrange(0, i as int)).drop_last().map_values(
                |l: Seq<char>| strip_cr(l),
            ),
            cur@ == split_nl(s@.subrange(0, i as int)).last(),
        decreases s.len() - i,
    {
        let ghost prev = s@.subrange(0, i as int);
        let ghost next = s@.subrange(0, i + 1);
        assert(next.drop_last() =~= prev);
        let c = s[i];
        if c == '\n' {
            let mut line = cur;
            if line.len() > 0 && line[line.len() - 1] == '\r' {
                line.pop();
            }
            proof {
                assert(line@ == strip_cr(split_nl(prev).last()));
            }
            let ghost before = done@;
            done.push(line);
            cur = Vec::new();
            proof {
                assert(views_of(done@) =~= views_of(before).push(line@));
                assert(split_nl(next) == split_nl(prev).push(Seq::empty()));
                assert(split_nl(next).drop_last() =~= split_nl(prev));
                assert(split_nl(prev) =~= split_nl(prev).drop_last().push(split_nl(prev).last()));
                assert(split_nl(prev).map_values(|l: Seq<char>| strip_cr(l)) =~= split_nl(
                    prev,
                ).drop_last().map_values(|l: Seq<char>| strip_cr(l)).push(strip_cr(split_nl(prev).last())));
            }
        } else {
            cur.push(c);
            proof {
                assert(split_nl(next).drop_last() =~= split_nl(prev).drop_last());
            }
        }
        i = i + 1;
    }
    assert(s@.subrange(0, s.len() as int) =~= s@);
    if cur.len() > 0 {
        done.push(cur);
    }
    done
}


/// The maximal runs of non-whitespace characters of `s`, in order, as
/// `str::split_whitespace` yields them.
pub open spec fn ws_tokens(s: Seq<char>) -> Seq<Seq<char>>
    decreases s.len(),
{
    if s.len() == 0 {
        seq![]
    } else {
        let init = ws_tokens(s.drop_last());
        let c = s.last();
        if is_ws(c) {
            init
        } else if s.len() >= 2 && !is_ws(s[s.len() - 2]) {
            init.update(init.len() - 1, init.last().push(c))
        } else {
            init.push(seq![c])
        }
    }
}

/// The whitespace-separated tokens of `s[lo..hi]`.
pub fn split_tokens(s: &Vec<char>, lo: usize, hi: usize) -> (r: Vec<Vec<char>>)
    requires
        lo <= hi <= s.len(),
    ensures
        views_of(r@) == ws_tokens(s@.subrange(lo as int, hi as int)),
{
    let mut done: Vec<Vec<char>> = Vec::new();
    let mut cur: Vec<char> = Vec::new();
    let mut i = lo;
    proof {
        assert(s@.subrange(lo as int, lo as int) =~= Seq::<char>::empty());
    }
    while i < hi
        invariant
            lo <= i <= hi <= s.len(),
            cur@.len() > 0 <==> (i > lo && !is_ws(s@[i - 1])),
            cur@.len() > 0 ==> views_of(done@).push(cur@) =~= ws_tokens(
                s@.subrange(lo as int, i as int),
            ),
            cur@.len() == 0 ==> views_of(done@) =~= ws_tokens(s@.subrange(lo as int, i as int)),
        decreases hi - i,
    {
        let ghost prev = s@.subrange(lo as int, i as int);
        let ghost next = s@.subrange(lo as int, i + 1);
        assert(next.drop_last() =~= prev);
        let c = s[i];
        if is_white(c) {
            if cur.len() > 0 {
                let ghost before = done@;
                done.push(cur);
                assert(views_of(done@) =~= views_of(before).push(cur@));
                cur = Vec::new();
            }
        } else {
            let ghost old_cur = cur@;
            if cur.len() > 0 {
                assert(next[next.len() - 2] == s@[i - 1]);
            } else {
                assert(i > lo ==> next[next.len() - 2] == s@[i - 1]);
            }
            cur.push(c);
            proof {
                if old_cur.len() > 0 {
                    let w = ws_tokens(prev);
                    assert(ws_tokens(next) == w.update(w.len() - 1, w.last().push(c)));
                    assert(views_of(done@).push(cur@) =~= w.update(w.len() - 1, w.last().push(c)));
                } else {
                    assert(ws_tokens(next) == ws_tokens(prev).push(seq![c]));
                    assert(cur@ =~= seq![c]);
                }
            }
        }
        i = i + 1;
    }
    if cur.len() > 0 {
        let ghost before = done@;
        done.push(cur);
        assert(views_of(done@) =~= views_of(before).push(cur@));
    }
    done
}

pub open spec fn digit_char(d: int) -> char {
    if d == 0 {
        '0'
    } else if d == 1 {
        '1'
    } else if d == 2 {
        '2'
    } else if d == 3 {
        '3'
    } else if d == 4 {
        '4'
    } else if d == 5 {
        '5'
    } else if d == 6 {
        '6'
    } else if d == 7 {
        '7'
    } else if d == 8 {
        '8'
    } else {
        '9'
    }
}

pub open spec fn is_digit(c: char) -> bool {
    '0' <= c <= '9'
}

/// The decimal numeral of `n`, without leading zeros.
pub open spec fn decimal(n: nat) -> Seq<char>
    decreases n,
{
    if n < 10 {
        seq![digit_char(n as int)]
    } else {
        decimal(n / 10).push(digit_char((n % 10) as int))
    }
}

/// The decimal numeral of `n`, zero-padded on the left to `width` digits.
pub open spec fn padded(n: nat, width: nat) -> Seq<char> {
    let d = decimal(n);
    if d.len() < width {
        Seq::new((width - d.len()) as nat, |i: int| '0') + d
    } else {
        d
    }
}

fn digit(d: u64) -> (c: char)
    requires
        d < 10,
    ensures
        c == digit_char(d as int),
{
    if d == 0 {
        '0'
    } else if d == 1 {
        '1'
    } else if d == 2 {
        '2'
    } else if d == 3 {
        '3'
    } else if d == 4 {
        '4'
    } else if d == 5 {
        '5'
    } else if d == 6 {
        '6'
    } else if d == 7 {
        '7'
    } else if d == 8 {
        '8'
    } else {
        '9'
    }
}

pub proof fn lemma_decimal_len(n: nat)
    ensures
        decimal(n).len() >= 1,
        n < 10 <==> decimal(n).len() == 1,
        n < 100 ==> decimal(n).len() <= 2,
        n < 1000 ==> decimal(n).len() <= 3,
        n < 10000 ==> decimal(n).len() <= 4,
    decreases n,
{
    if n >= 10 {
        lemma_decimal_len(n / 10);
    }
}

/// Appends the decimal numeral of `n` to `out`.
pub fn push_decimal(out: &mut Vec<char>, n: u64)
    ensures
        final(out)@ == old(out)@ + decimal(n as nat),
    decreases n,
{
    if n >= 10 {
        push_decimal(out, n / 10);
    }
    out.push(digit(n % 10));
    proof {
        if n >= 10 {
            assert(old(out)@ + decimal(n as nat) =~= old(out)@ + decimal((n / 10) as nat) + seq![
                digit_char((n % 10) as int),
            ]);
        }
    }
}

/// Appends the decimal numeral of `n`, zero-padded to `width` digits.
pub fn push_padded(out: &mut Vec<char>, n: u64, width: usize)
    ensures
        final(out)@ == old(out)@ + padded(n as nat, width as nat),
{
    let mut digits: Vec<char> = Vec::new();
    push_decimal(&mut digits, n);
    assert(digits@ =~= decimal(n as nat));
    let mut k = digits.len();
    let ghost start = out@;
    while k < width
        invariant
            digits@ == decimal(n as nat),
            digits.len() <= k,
            k <= width || k == digits.len(),
            out@ =~= start + Seq::new((k - digits.len()) as nat, |i: int| '0'),
        decreases width - k,
    {
        out.push('0');
        k = k + 1;
    }
    proof {
        if digits.len() >= width {
            assert(out@ =~= start);
        }
        assert(out@ + digits@ =~= start + padded(n as nat, width as nat));
    }
    let mut j: usize = 0;
    let ghost mid = out@;
    while j < digits.len()
        invariant
            j <= digits.len(),
            out@ =~= mid + digits@.subrange(0, j as int),
            mid + digits@ =~= start + padded(n as nat, width as nat),
        decreases digits.len() - j,
    {
        out.push(digits[j]);
        j = j + 1;
    }
    assert(digits@.subrange(0, digits.len() as int) =~= digits@);
}


/// The lines joined back into text, each followed by a line feed.
pub open spec fn join_lines(ls: Seq<Seq<char>>) -> Seq<char>
    decreases ls.len(),
{
    if ls.len() == 0 {
        Seq::empty()
    } else {
        join_lines(ls.drop_last()) + ls.last() + seq!['\n']
    }
}

/// A copy of `s[lo..hi]`.
pub fn copy_range(s: &Vec<char>, lo: usize, hi: usize) -> (r: Vec<char>)
    requires
        lo <= hi <= s.len(),
    ensures
        r@ == s@.subrange(lo as int, hi as int),
{
    let mut r: Vec<char> = Vec::new();
    let mut k = lo;
    while k < hi
        invariant
            lo <= k <= hi <= s.len(),
            r@ =~= s@.subrange(lo as int, k as int),
        decreases hi - k,
    {
        r.push(s[k]);
        k = k + 1;
    }
    r
}

/// Appends `s` to `out`.
pub fn push_all(out: &mut Vec<char>, s: &Vec<char>)
    ensures
        final(out)@ == old(out)@ + s@,
{
    let ghost start = out@;
    let mut k: usize = 0;
    while k < s.len()
        invariant
            k <= s.len(),
            out@ =~= start + s@.subrange(0, k as int),
        decreases s.len() - k,
    {
        out.push(s[k]);
        k = k + 1;
    }
    assert(s@.subrange(0, s.len() as int) =~= s@);
}


pub open spec fn no_newline(s: Seq<char>) -> bool {
    forall|i: int| 0 <= i < s.len() ==> s[i] != '\n'
}

/// A line that `lines` gives back unchanged.
pub open spec fn plain_line(s: Seq<char>) -> bool {
    no_newline(s) && !(s.len() > 0 && s.last() == '\r')
}

/// No `\r` stands right before a `\n`.
pub open spec fn crlf_free(s: Seq<char>) -> bool {
    forall|i: int| 1 <= i < s.len() && #[trigger] s[i] == '\n' ==> s[i - 1] != '\r'
}

/// Text that `lines` and `join_lines` give back unchanged.
pub open spec fn line_text(s: Seq<char>) -> bool {
    crlf_free(s) && (s.len() == 0 || s.last() == '\n')
}

pub proof fn lemma_split_nl_plain(x: Seq<char>)
    requires
        no_newline(x),
    ensures
        split_nl(x) == seq![x],
    decreases x.len(),
{
    if x.len() > 0 {
        lemma_split_nl_plain(x.drop_last());
        assert(x.drop_last().push(x.last()) =~= x);
        assert(split_nl(x) =~= seq![x]);
    } else {
        assert(x =~= Seq::<char>::empty());
    }
}

pub proof fn lemma_split_nl_line(x: Seq<char>, rest: Seq<char>)
    requires
        no_newline(x),
    ensures
        split_nl(x + seq!['\n'] + rest) == seq![x] + split_nl(rest),
    decreases rest.len(),
{
    let s = x + seq!['\n'] + rest;
    if rest.len() == 0 {
        lemma_split_nl_plain(x);
        assert(s.drop_last() =~= x);
        assert(split_nl(s) =~= seq![x] + split_nl(rest));
    } else {
        lemma_split_nl_line(x, rest.drop_last());
        assert(s.drop_last() =~= x + seq!['\n'] + rest.drop_last());
        lemma_split_nl_nonempty(rest.drop_last());
        assert(split_nl(s) =~= seq![x] + split_nl(rest));
    }
}

pub proof fn lemma_lines_line(x: Seq<char>, rest: Seq<char>)
    requires
        plain_line(x),
    ensures
        lines(x + seq!['\n'] + rest) == seq![x] + lines(rest),
{
    lemma_split_nl_line(x, rest);
    lemma_split_nl_nonempty(rest);
    let p = split_nl(rest);
    assert((seq![x] + p).drop_last() =~= seq![x] + p.drop_last());
    assert((seq![x] + p).last() == p.last());
    assert((seq![x] + p.drop_last()).map_values(|l: Seq<char>| strip_cr(l)) =~= seq![x]
        + p.drop_last().map_values(|l: Seq<char>| strip_cr(l)));
    assert(lines(x + seq!['\n'] + rest) =~= seq![x] + lines(rest));
}

/// Lines that are joined and followed by more text come back first.
pub proof fn lemma_lines_join(h: Seq<Seq<char>>, b: Seq<char>)
    requires
        forall|i: int| 0 <= i < h.len() ==> plain_line(#[trigger] h[i]),
    ensures
        lines(join_lines(h) + b) == h + lines(b),
    decreases h.len(),
{
    if h.len() == 0 {
        assert(join_lines(h) + b =~= b);
        assert(h + lines(b) =~= lines(b));
    } else {
        let x = h.last();
        assert(plain_line(h[h.len() - 1]));
        lemma_lines_join(h.drop_last(), x + seq!['\n'] + b);
        assert(join_lines(h) + b =~= join_lines(h.drop_last()) + (x + seq!['\n'] + b));
        lemma_lines_line(x, b);
        assert(h.drop_last() + (seq![x] + lines(b)) =~= h + lines(b));
    }
}

pub proof fn lemma_join_split(s: Seq<char>)
    ensures
        split_nl(s).len() >= 1,
        join_lines(split_nl(s).drop_last()) + split_nl(s).last() == s,
        split_nl(s).last().len() > 0 ==> s.len() > 0 && split_nl(s).last().last() == s.last(),
        crlf_free(s) ==> forall|i: int|
            0 <= i < split_nl(s).len() - 1 ==> strip_cr(#[trigger] split_nl(s)[i]) == split_nl(
                s,
            )[i],
    decreases s.len(),
{
    if s.len() == 0 {
        assert(join_lines(split_nl(s).drop_last()) + split_nl(s).last() =~= s);
    } else {
        let t = s.drop_last();
        lemma_join_split(t);
        let p = split_nl(t);
        assert(t.push(s.last()) =~= s);
        if crlf_free(s) {
            assert forall|i: int| 1 <= i < t.len() && #[trigger] t[i] == '\n' implies t[i - 1] != '\r' by {
                assert(s[i] == t[i] && s[i - 1] == t[i - 1]);
            }
        }
        if s.last() == '\n' {
            assert(split_nl(s).drop_last() =~= p);
            assert(p =~= p.drop_last().push(p.last()));
            assert(join_lines(p) == join_lines(p.drop_last()) + p.last() + seq!['\n']);
            assert(join_lines(split_nl(s).drop_last()) + split_nl(s).last() =~= s);
            if crlf_free(s) && p.last().len() > 0 {
                assert(s[s.len() - 1] == '\n');
                assert(s[s.len() - 2] == t.last());
            }
        } else {
            assert(split_nl(s).drop_last() =~= p.drop_last());
            assert(join_lines(split_nl(s).drop_last()) + split_nl(s).last() =~= s);
        }
    }
}

/// Text of whole lines is the join of its lines.
pub proof fn lemma_line_text(b: Seq<char>)
    requires
        line_text(b),
    ensures
        join_lines(lines(b)) == b,
{
    lemma_join_split(b);
    let p = split_nl(b);
    if b.len() > 0 {
        if p.last().len() > 0 {
            assert(p.last().last() == '\n');
            lemma_split_nl_last_free(b);
        }
    }
    assert(p.last().len() == 0);
    assert(p.drop_last().map_values(|l: Seq<char>| strip_cr(l)) =~= p.drop_last());
    assert(p.last() =~= Seq::<char>::empty());
    assert(join_lines(p.drop_last()) + p.last() =~= join_lines(p.drop_last()));
}

/// The piece after the last line feed holds no line feed.
pub proof fn lemma_split_nl_last_free(s: Seq<char>)
    ensures
        split_nl(s).len() >= 1,
        no_newline(split_nl(s).last()),
    decreases s.len(),
{
    lemma_split_nl_nonempty(s);
    if s.len() > 0 {
        lemma_split_nl_last_free(s.drop_last());
        let p = split_nl(s.drop_last());
        if s.last() != '\n' {
            assert(split_nl(s).last() =~= p.last().push(s.last()));
        }
    }
}

pub proof fn lemma_trim_plain(s: Seq<char>)
    requires
        s.len() > 0,
        !is_ws(s[0]),
        !is_ws(s.last()),
    ensures
        trim(s) == s,
{
}

pub proof fn lemma_trim_lead_space(s: Seq<char>)
    requires
        s.len() > 0,
        !is_ws(s[0]),
        !is_ws(s.last()),
    ensures
        trim(seq![' '] + s) == s,
{
    assert((seq![' '] + s).drop_first() =~= s);
    assert(trim_start(seq![' '] + s) == trim_start(s));
}

/// A token that follows whitespace (or nothing) is a token of its own.
pub proof fn lemma_ws_tokens_append(p: Seq<char>, t: Seq<char>)
    requires
        p.len() == 0 || is_ws(p.last()),
        t.len() > 0,
        forall|i: int| 0 <= i < t.len() ==> !is_ws(#[trigger] t[i]),
    ensures
        ws_tokens(p + t) == ws_tokens(p).push(t),
    decreases t.len(),
{
    let s = p + t;
    if t.len() == 1 {
        assert(s.drop_last() =~= p);
        assert(s.last() == t[0]);
        if s.len() >= 2 {
            assert(s[s.len() - 2] == p.last());
        }
        assert(seq![t[0]] =~= t);
    } else {
        let u = t.drop_last();
        assert(forall|i: int| 0 <= i < u.len() ==> u[i] == t[i]);
        lemma_ws_tokens_append(p, u);
        assert(s.drop_last() =~= p + u);
        assert(s[s.len() - 2] == t[t.len() - 2]);
        assert(!is_ws(t[t.len() - 2]));
        assert(u.push(t.last()) =~= t);
        assert(ws_tokens(s) =~= ws_tokens(p).push(t));
    }
}

pub proof fn lemma_decimal_digits(n: nat)
    ensures
        forall|i: int| 0 <= i < decimal(n).len() ==> is_digit(#[trigger] decimal(n)[i]),
    decreases n,
{
    assert(forall|d: int| is_digit(#[trigger] digit_char(d)));
    if n >= 10 {
        lemma_decimal_digits(n / 10);
        let d = decimal(n);
        assert forall|i: int| 0 <= i < d.len() implies is_digit(#[trigger] d[i]) by {
            if i < d.len() - 1 {
                assert(d[i] == decimal(n / 10)[i]);
            }
        }
    }
}

pub proof fn lemma_padded_digits(n: nat, w: nat)
    ensures
        padded(n, w).len() >= 1,
        forall|i: int| 0 <= i < padded(n, w).len() ==> is_digit(#[trigger] padded(n, w)[i]),
        padded(n, w).len() == if decimal(n).len() < w { w } else { decimal(n).len() },
{
    lemma_decimal_digits(n);
    lemma_decimal_len(n);
    let d = decimal(n);
    if d.len() < w {
        let z = Seq::new((w - d.len()) as nat, |i: int| '0');
        assert forall|i: int| 0 <= i < padded(n, w).len() implies is_digit(
            #[trigger] padded(n, w)[i],
        ) by {
            if i < z.len() {
                assert(padded(n, w)[i] == '0');
            } else {
                assert(padded(n, w)[i] == d[i - z.len()]);
            }
        }
    }
}


/// The order of `str` comparison: lexicographic by character.
pub open spec fn text_lt(a: Seq<char>, b: Seq<char>) -> bool
    decreases a.len(),
{
    if a.len() == 0 {
        b.len() > 0
    } else if b.len() == 0 {
        false
    } else if a[0] != b[0] {
        a[0] < b[0]
    } else {
        text_lt(a.drop_first(), b.drop_first())
    }
}

pub proof fn lemma_text_lt_trans(a: Seq<char>, b: Seq<char>, c: Seq<char>)
    requires
        text_lt(a, b),
        text_lt(b, c),
    ensures
        text_lt(a, c),
    decreases a.len(),
{
    if a.len() > 0 && b.len() > 0 && c.len() > 0 && a[0] == b[0] && b[0] == c[0] {
        lemma_text_lt_trans(a.drop_first(), b.drop_first(), c.drop_first());
    }
}

pub proof fn lemma_text_lt_total(a: Seq<char>, b: Seq<char>)
    ensures
        a != b ==> text_lt(a, b) || text_lt(b, a),
        !(text_lt(a, b) && text_lt(b, a)),
        !text_lt(a, a),
    decreases a.len(),
{
    if a.len() > 0 && b.len() > 0 {
        lemma_text_lt_total(a.drop_first(), b.drop_first());
        if a[0] == b[0] && a != b {
            assert(a =~= seq![a[0]] + a.drop_first());
            assert(b =~= seq![b[0]] + b.drop_first());
        }
        lemma_text_lt_total(a.drop_first(), a.drop_first());
    } else if a.len() == 0 && b.len() == 0 {
        assert(a =~= b);
    } else if a.len() > 0 {
        lemma_text_lt_total(a.drop_first(), a.drop_first());
    }
}

/// Whether `a` sorts strictly before `b`.
pub fn text_less(a: &str, b: &str) -> (r: bool)
    ensures
        r == text_lt(a@, b@),
{
    let x = chars_of(a);
    let y = chars_of(b);
    let mut i: usize = 0;
    assert(x@.subrange(0, x.len() as int) =~= x@);
    assert(y@.subrange(0, y.len() as int) =~= y@);
    while i < x.len() && i < y.len() && x[i] == y[i]
        invariant
            i <= x.len(),
            i <= y.len(),
            text_lt(x@, y@) == text_lt(x@.subrange(i as int, x.len() as int), y@.subrange(
                i as int,
                y.len() as int,
            )),
        decreases x.len() - i,
    {
        assert(x@.subrange(i as int, x.len() as int).drop_first() =~= x@.subrange(
            i + 1,
            x.len() as int,
        ));
        assert(y@.subrange(i as int, y.len() as int).drop_first() =~= y@.subrange(
            i + 1,
            y.len() as int,
        ));
        i = i + 1;
    }
    let ghost xs = x@.subrange(i as int, x.len() as int);
    let ghost ys = y@.subrange(i as int, y.len() as int);
    if i == x.len() {
        i < y.len()
    } else if i == y.len() {
        false
    } else {
        assert(xs[0] == x@[i as int] && ys[0] == y@[i as int]);
        x[i] < y[i]
    }
}

} // verus!
