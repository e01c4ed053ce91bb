use vstd::prelude::*;
use vstd::std_specs::iter::IteratorSpec;

verus! {

/// Unicode `White_Space`: the characters that separate the fields of a
/// request header.
pub open spec fn is_white(c: char) -> bool {
    let u = c as u32;
    ||| 0x09 <= u <= 0x0d
    ||| u == 0x20
    ||| u == 0x85
    ||| u == 0xa0
    ||| u == 0x1680
    ||| 0x2000 <= u <= 0x200a
    ||| u == 0x2028
    ||| u == 0x2029
    ||| u == 0x202f
    ||| u == 0x205f
    ||| u == 0x3000
}

/// Whether `c` separates runs: white space when `on_white`, else `/`.
pub open spec fn separates(c: char, on_white: bool) -> bool {
    if on_white {
        is_white(c)
    } else {
        c == '/'
    }
}

/// The maximal runs of characters of `s` that `separates` does not hold of,
/// in order.
pub open spec fn runs(s: Seq<char>, on_white: bool) -> Seq<Seq<char>>
    decreases s.len(),
{
    if s.len() == 0 {
        seq![]
    } else {
        let p = s.drop_last();
        let c = s.last();
        let w = runs(p, on_white);
        if separates(c, on_white) {
            w
        } else if p.len() > 0 && !separates(p.last(), on_white) {
            w.update(w.len() - 1, w.last().push(c))
        } else {
            w.push(seq![c])
        }
    }
}

/// The white-space separated words of `s`.
pub open spec fn words(s: Seq<char>) -> Seq<Seq<char>> {
    runs(s, true)
}

pub open spec fn is_digit(c: char) -> bool {
    0x30 <= (c as u32) <= 0x39
}

pub open spec fn digit_value(c: char) -> nat {
    ((c as u32) - 0x30) as nat
}

pub open spec fn digit_char(d: nat) -> char {
    (0x30 + d) as char
}

/// The value of a string of decimal digits, most significant first.
pub open spec fn digits_value(s: Seq<char>) -> nat
    decreases s.len(),
{
    if s.len() == 0 {
        0
    } else {
        digits_value(s.drop_last()) * 10 + digit_value(s.last())
    }
}

/// What follows an optional leading `+` sign.
pub open spec fn unsigned_digits(s: Seq<char>) -> Seq<char> {
    if s.len() > 0 && s[0] == '+' {
        s.drop_first()
    } else {
        s
    }
}

/// `s` is the text of an unsigned machine-sized integer: an optional `+`,
/// then one or more ASCII digits whose value fits in `usize`.
pub open spec fn is_usize_text(s: Seq<char>) -> bool {
    let d = unsigned_digits(s);
    &&& d.len() > 0
    &&& forall|i: int| 0 <= i < d.len() ==> is_digit(#[trigger] d[i])
    &&& digits_value(d) <= usize::MAX
}

/// The decimal text of `n`, without sign or leading zeros.
pub open spec fn decimal(n: nat) -> Seq<char>
    decreases n,
{
    if n < 10 {
        seq![digit_char(n)]
    } else {
        decimal(n / 10).push(digit_char(n % 10))
    }
}

/// The characters of `s`, in order.
pub fn chars_of(s: &str) -> (r: Vec<char>)
    ensures
        r@ == s@,
{
    broadcast use vstd::string::group_string_axioms;

    let mut out: Vec<char> = Vec::new();
    let mut it = s.chars();
    loop
        invariant
            out@ + it.remaining() == s@,
            it.obeys_prophetic_iter_laws(),
            it.decrease() is Some,
        ensures
            out@ == s@,
        decreases it.decrease()->0,
    {
        match it.next() {
            Some(c) => out.push(c),
            None => break,
        }
    }
    out
}

pub fn is_white_char(c: char) -> (r: bool)
    ensures
        r == is_white(c),
{
    let u = c as u32;
    (0x09 <= u && u <= 0x0d) || u == 0x20 || u == 0x85 || u == 0xa0 || u == 0x1680 || (0x2000 <= u
        && u <= 0x200a) || u == 0x2028 || u == 0x2029 || u == 0x202f || u == 0x205f || u == 0x3000
}

/// The words that the spans `spans` cut out of `s`.
pub open spec fn span_words(s: Seq<char>, spans: Seq<(usize, usize)>) -> Seq<Seq<char>> {
    Seq::new(spans.len(), |k: int| s.subrange(spans[k].0 as int, spans[k].1 as int))
}

pub open spec fn spans_within(s: Seq<char>, spans: Seq<(usize, usize)>) -> bool {
    forall|k: int| 0 <= k < spans.len() ==> #[trigger] spans[k].0 <= spans[k].1 <= s.len()
}

proof fn lemma_runs_last_nonempty(s: Seq<char>, on_white: bool)
    requires
        s.len() > 0,
        !separates(s.last(), on_white),
    ensures
        runs(s, on_white).len() > 0,
    decreases s.len(),
{
    let p = s.drop_last();
    if p.len() > 0 && !separates(p.last(), on_white) {
        lemma_runs_last_nonempty(p, on_white);
    }
}

fn separator_char(c: char, on_white: bool) -> (r: bool)
    ensures
        r == separates(c, on_white),
{
    if on_white {
        is_white_char(c)
    } else {
        c == '/'
    }
}

/// The start and end of each run of `s`.
pub fn run_spans(s: &Vec<char>, on_white: bool) -> (r: Vec<(usize, usize)>)
    ensures
        spans_within(s@, r@),
        span_words(s@, r@) == runs(s@, on_white),
{
    let mut spans: Vec<(usize, usize)> = Vec::new();
    let mut start: usize = 0;
    let mut in_word = false;
    let mut i: usize = 0;
    while i < s.len()
        invariant
            i <= s.len(),
            spans_within(s@, spans@),
            in_word == (i > 0 && !separates(s@[i - 1], on_white)),
            in_word ==> start < i && runs(s@.subrange(0, i as int), on_white) == span_words(s@, spans@).push(
                s@.subrange(start as int, i as int),
            ),
            !in_word ==> runs(s@.subrange(0, i as int), on_white) == span_words(s@, spans@),
        decreases s.len() - i,
    {
        let c = s[i];
        let ghost prev = s@.subrange(0, i as int);
        let ghost next = s@.subrange(0, i + 1);
        assert(next.drop_last() == prev);
        assert(next.last() == c);
        if separator_char(c, on_white) {
            if in_word {
                let ghost old_spans = spans@;
                spans.push((start, i));
                assert(span_words(s@, spans@) == span_words(s@, old_spans).push(
                    s@.subrange(start as int, i as int),
                ));
            }
            in_word = false;
        } else {
            if in_word {
                proof {
                    lemma_runs_last_nonempty(prev, on_white);
                    assert(s@.subrange(start as int, i as int).push(c) == s@.subrange(
                        start as int,
                        i + 1,
                    ));
                    assert(runs(next, on_white) == span_words(s@, spans@).push(
                        s@.subrange(start as int, i + 1),
                    ));
                }
            } else {
                start = i;
                assert(seq![c] == s@.subrange(start as int, i + 1));
            }
            in_word = true;
        }
        i = i + 1;
    }
    assert(s@.subrange(0, s.len() as int) == s@);
    if in_word {
        let ghost old_spans = spans@;
        spans.push((start, s.len()));
        assert(span_words(s@, spans@) == span_words(s@, old_spans).push(
            s@.subrange(start as int, s.len() as int),
        ));
    }
    spans
}

proof fn lemma_digits_value_grows(s: Seq<char>, i: int)
    requires
        0 <= i <= s.len(),
        forall|j: int| 0 <= j < s.len() ==> is_digit(#[trigger] s[j]),
    ensures
        digits_value(s) >= digits_value(s.subrange(0, i)),
    decreases s.len() - i,
{
    if i < s.len() {
        lemma_digits_value_grows(s, i + 1);
        let q = s.subrange(0, i + 1);
        assert(q.drop_last() == s.subrange(0, i));
    } else {
        assert(s.subrange(0, i) == s);
    }
}

/// Reads an unsigned machine-sized integer in decimal, with an optional
/// leading `+`.
pub fn parse_usize(s: &Vec<char>) -> (r: Option<usize>)
    ensures
        r is Some <==> is_usize_text(s@),
        r is Some ==> r->0 as nat == digits_value(unsigned_digits(s@)),
{
    let ghost d = unsigned_digits(s@);
    let mut i: usize = if s.len() > 0 && s[0] == '+' {
        1
    } else {
        0
    };
    let first = i;
    if i >= s.len() {
        return None;
    }
    assert(d == s@.subrange(first as int, s.len() as int));
    let mut acc: usize = 0;
    while i < s.len()
        invariant
            first <= i <= s.len(),
            d == s@.subrange(first as int, s.len() as int),
            d == unsigned_digits(s@),
            forall|j: int| first <= j < i ==> is_digit(#[trigger] s@[j]),
            acc as nat == digits_value(d.subrange(0, i - first)),
        decreases s.len() - i,
    {
        let c = s[i];
        let u = c as u32;
        if u < 0x30 || u > 0x39 {
            assert(d[i - first] == c);
            assert(!is_digit(d[i - first]));
            return None;
        }
        let v = (u - 0x30) as usize;
        let ghost q = d.subrange(0, i + 1 - first);
        assert(q.drop_last() == d.subrange(0, i - first));
        assert(q.last() == c);
        if acc > (usize::MAX - v) / 10 {
            proof {
                assert(acc * 10 + v > usize::MAX) by (nonlinear_arith)
                    requires
                        acc > (usize::MAX - v) / 10,
                        v <= 9,
                ;
                if forall|j: int| 0 <= j < d.len() ==> is_digit(#[trigger] d[j]) {
                    lemma_digits_value_grows(d, i + 1 - first);
                }
            }
            return None;
        }
        proof {
            assert(acc * 10 + v <= usize::MAX) by (nonlinear_arith)
                requires
                    acc <= (usize::MAX - v) / 10,
                    v <= 9,
            ;
        }
        acc = acc * 10 + v;
        i = i + 1;
    }
    assert(d.subrange(0, d.len() as int) == d);
    assert(forall|j: int| 0 <= j < d.len() ==> #[trigger] d[j] == s@[j + first]);
    Some(acc)
}

fn digit_text(d: usize) -> (r: &'static str)
    requires
        d < 10,
    ensures
        r@ == seq![digit_char(d as nat)],
{
    proof {
        reveal_strlit("0");
        reveal_strlit("1");
        reveal_strlit("2");
        reveal_strlit("3");
        reveal_strlit("4");
        reveal_strlit("5");
        reveal_strlit("6");
        reveal_strlit("7");
        reveal_strlit("8");
        reveal_strlit("9");
    }
    match d {
        0 => "0",
        1 => "1",
        2 => "2",
        3 => "3",
        4 => "4",
        5 => "5",
        6 => "6",
        7 => "7",
        8 => "8",
        _ => "9",
    }
}

/// The decimal text of `n`.
pub fn decimal_text(n: usize) -> (r: String)
    ensures
        r@ == decimal(n as nat),
    decreases n,
{
    if n < 10 {
        String::from_str(digit_text(n))
    } else {
        let mut s = decimal_text(n / 10);
        s.append(digit_text(n % 10));
        s
    }
}

/// The runs of `s`, each as a string of its own.
pub fn run_texts(s: &str, on_white: bool) -> (r: Vec<String>)
    ensures
        r.deep_view() == runs(s@, on_white),
{
    let cs = chars_of(s);
    let spans = run_spans(&cs, on_white);
    let mut out: Vec<String> = Vec::new();
    let mut k: usize = 0;
    while k < spans.len()
        invariant
            k <= spans.len(),
            cs@ == s@,
            spans_within(s@, spans@),
            out@.len() == k,
            forall|j: int| 0 <= j < k ==> (#[trigger] out@[j])@ == span_words(s@, spans@)[j],
        decreases spans.len() - k,
    {
        let (a, b) = spans[k];
        assert(a <= b <= s@.len());
        let piece = s.substring_char(a, b).to_owned();
        out.push(piece);
        k = k + 1;
    }
    assert(out.deep_view() == span_words(s@, spans@));
    out
}

/// A separator adds no run.
pub proof fn lemma_runs_push_separator(p: Seq<char>, c: char, on_white: bool)
    requires
        separates(c, on_white),
    ensures
        runs(p.push(c), on_white) == runs(p, on_white),
{
    assert(p.push(c).drop_last() == p);
}

/// Characters that are not separators, after a separator or at the start,
/// form one new run.
pub proof fn lemma_runs_append_run(p: Seq<char>, x: Seq<char>, on_white: bool)
    requires
        p.len() == 0 || separates(p.last(), on_white),
        x.len() > 0,
        forall|i: int| 0 <= i < x.len() ==> !separates(#[trigger] x[i], on_white),
    ensures
        runs(p + x, on_white) == runs(p, on_white).push(x),
    decreases x.len(),
{
    let c = x.last();
    let x0 = x.drop_last();
    assert((p + x).drop_last() == p + x0);
    assert((p + x).last() == c);
    if x0.len() == 0 {
        assert(p + x0 == p);
        assert(x == seq![c]);
    } else {
        lemma_runs_append_run(p, x0, on_white);
        assert((p + x0).last() == x0.last());
        assert(x0.push(c) == x);
        assert(runs(p, on_white).push(x0).update(runs(p, on_white).len() as int, x) == runs(
            p,
            on_white,
        ).push(x));
    }
}

/// The decimal text of a number is a string of digits that reads back as
/// the number.
pub proof fn lemma_decimal_digits(n: nat)
    ensures
        decimal(n).len() > 0,
        forall|i: int| 0 <= i < decimal(n).len() ==> is_digit(#[trigger] decimal(n)[i]),
        digits_value(decimal(n)) == n,
    decreases n,
{
    if n >= 10 {
        lemma_decimal_digits(n / 10);
        let s = decimal(n);
        assert(s.drop_last() == decimal(n / 10));
        assert(forall|i: int| 0 <= i < s.len() - 1 ==> s[i] == decimal(n / 10)[i]);
        assert(digit_value(s.last()) == n % 10);
        assert(digits_value(s) == digits_value(decimal(n / 10)) * 10 + digit_value(s.last()));
        assert((n / 10) * 10 + n % 10 == n) by (nonlinear_arith);
    } else {
        let s = decimal(n);
        assert(s.drop_last() == Seq::<char>::empty());
        assert(digit_value(s.last()) == n);
        assert(digits_value(s) == digits_value(s.drop_last()) * 10 + digit_value(s.last()));
    }
}

/// The decimal text of a machine-sized number reads as that number.
pub proof fn lemma_decimal_is_usize_text(n: nat)
    requires
        n <= usize::MAX,
    ensures
        is_usize_text(decimal(n)),
        digits_value(unsigned_digits(decimal(n))) == n,
{
    lemma_decimal_digits(n);
    assert(is_digit(decimal(n)[0]));
}

} // verus!
