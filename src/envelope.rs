use vstd::prelude::*;
use vstd::std_specs::iter::IteratorSpec;
use vstd::string::*;
use vstd::utf8::*;

verus! {

broadcast use vstd::string::group_string_axioms;

/// Whether `c` is one of the ASCII digits `0`..=`9`.
pub open spec fn is_digit(c: char) -> bool {
    '0' <= c && c <= '9'
}

/// The value of the digit character `c`.
pub open spec fn digit_value(c: char) -> nat {
    (c as u32 - '0' as u32) as nat
}

/// The character of the decimal digit `d` (below ten).
pub open spec fn digit_char(d: nat) -> char {
    if d == 0 {
        '0'
    } else if d == 1 {
        '1'
    } else if d == 2 {
        '2'
    } else if d == 3 {
        '3'
    } else if d == 4 {
        '4'
    } else if d == 5 {
        '5'
    } else if d == 6 {
        '6'
    } else if d == 7 {
        '7'
    } else if d == 8 {
        '8'
    } else {
        '9'
    }
}

/// The decimal numeral of `n`, without leading zeros.
pub open spec fn decimal(n: nat) -> Seq<char>
    decreases n,
{
    if n < 10 {
        seq![digit_char(n)]
    } else {
        decimal(n / 10).push(digit_char(n % 10))
    }
}

/// The number that the digit sequence `s` spells in base ten.
pub open spec fn decimal_value(s: Seq<char>) -> nat
    decreases s.len(),
{
    if s.len() == 0 {
        0
    } else {
        decimal_value(s.drop_last()) * 10 + digit_value(s.last())
    }
}

/// The end of the run of digits in `s` that starts at `j`.
pub open spec fn digit_run_end(s: Seq<char>, j: int) -> int
    decreases s.len() - j,
{
    if 0 <= j < s.len() && is_digit(s[j]) {
        digit_run_end(s, j + 1)
    } else {
        j
    }
}

/// Whether `s` holds the three characters `~`, `x`, `~` from `i`.
pub open spec fn tag_at(s: Seq<char>, i: int, x: char) -> bool {
    &&& 0 <= i
    &&& i + 3 <= s.len()
    &&& s[i] == '~'
    &&& s[i + 1] == x
    &&& s[i + 2] == '~'
}

/// Where the envelope marker `~m~<digits>~m~` that starts at `i` ends, if one starts there.
pub open spec fn marker_end(s: Seq<char>, i: int) -> Option<int> {
    if tag_at(s, i, 'm') {
        let j = digit_run_end(s, i + 3);
        if j > i + 3 && tag_at(s, j, 'm') {
            Some(j + 3)
        } else {
            None
        }
    } else {
        None
    }
}

/// The pieces of `s` between envelope markers, scanning from `pos`, the
/// current piece having started at `start`.
pub open spec fn split_from(s: Seq<char>, start: int, pos: int) -> Seq<Seq<char>>
    decreases s.len() - pos,
{
    if pos < 0 || pos >= s.len() {
        seq![s.subrange(start, s.len() as int)]
    } else {
        match marker_end(s, pos) {
            Some(e) => seq![s.subrange(start, pos)] + split_from(s, e, e),
            None => split_from(s, start, pos + 1),
        }
    }
}

/// The messages that a decoded payload carries: the pieces between envelope
/// markers, in order, where the piece before the first marker counts only when
/// it is not empty.
pub open spec fn envelope_segments(s: Seq<char>) -> Seq<Seq<char>> {
    let parts = split_from(s, 0, 0);
    if parts.len() > 0 && parts[0].len() == 0 {
        parts.drop_first()
    } else {
        parts
    }
}

/// Whether a ping literal `~h~<digits>` starts at `i`.
pub open spec fn ping_at(s: Seq<char>, i: int) -> bool {
    tag_at(s, i, 'h') && i + 3 < s.len() && is_digit(s[i + 3])
}

/// The leftmost start of a ping literal at or after `i`.
pub open spec fn first_ping_from(s: Seq<char>, i: int) -> Option<int>
    decreases s.len() - i,
{
    if i < 0 || i >= s.len() {
        None
    } else if ping_at(s, i) {
        Some(i)
    } else {
        first_ping_from(s, i + 1)
    }
}

/// The digits of the leftmost ping literal in `s`, if `s` holds one.
pub open spec fn ping_digits(s: Seq<char>) -> Option<Seq<char>> {
    match first_ping_from(s, 0) {
        Some(i) => Some(s.subrange(i + 3, digit_run_end(s, i + 3))),
        None => None,
    }
}

/// `~m~`
pub open spec fn message_tag() -> Seq<char> {
    seq!['~', 'm', '~']
}

/// `~h~`
pub open spec fn ping_tag() -> Seq<char> {
    seq!['~', 'h', '~']
}

/// The envelope around one outgoing message: the marker that holds the
/// payload's length in UTF-8 bytes, then the payload.
pub open spec fn envelope_of(p: Seq<char>) -> Seq<char> {
    message_tag() + decimal(encode_utf8(p).len()) + message_tag() + p
}

/// The literal that answers the ping of number `id`.
pub open spec fn pong_of(id: nat) -> Seq<char> {
    ping_tag() + decimal(id)
}

proof fn lemma_digit_char(d: nat)
    requires
        d < 10,
    ensures
        is_digit(digit_char(d)),
        digit_value(digit_char(d)) == d,
{
}

proof fn lemma_decimal_digits(n: nat)
    ensures
        decimal(n).len() >= 1,
        forall|i: int| 0 <= i < decimal(n).len() ==> is_digit(#[trigger] decimal(n)[i]),
        decimal_value(decimal(n)) == n,
    decreases n,
{
    if n < 10 {
        lemma_digit_char(n);
        assert(decimal(n).drop_last() =~= Seq::<char>::empty());
        assert(decimal_value(Seq::<char>::empty()) == 0);
    } else {
        lemma_decimal_digits(n / 10);
        lemma_digit_char(n % 10);
        assert(decimal(n).drop_last() =~= decimal(n / 10));
        assert((n / 10) * 10 + n % 10 == n) by (nonlinear_arith);
    }
}

proof fn lemma_digit_run_to(s: Seq<char>, j: int, k: int)
    requires
        0 <= j <= k <= s.len(),
        forall|i: int| j <= i < k ==> is_digit(#[trigger] s[i]),
        k == s.len() || !is_digit(s[k]),
    ensures
        digit_run_end(s, j) == k,
    decreases k - j,
{
    if j < k {
        lemma_digit_run_to(s, j + 1, k);
    }
}

proof fn lemma_split_without_markers(s: Seq<char>, start: int, p: int)
    requires
        0 <= p,
        forall|q: int| p <= q < s.len() ==> #[trigger] marker_end(s, q) is None,
    ensures
        split_from(s, start, p) == seq![s.subrange(start, s.len() as int)],
    decreases s.len() - p,
{
    if p < s.len() {
        lemma_split_without_markers(s, start, p + 1);
    }
}

/// The literal that answers the ping of number `id` reads back as that ping:
/// its digits are the numeral of `id`, and in its envelope it is the only
/// message.
pub proof fn lemma_pong_reads_back(id: nat)
    ensures
        ping_digits(pong_of(id)) == Some(decimal(id)),
        decimal_value(decimal(id)) == id,
        envelope_segments(envelope_of(pong_of(id))) == seq![pong_of(id)],
{
    let p = pong_of(id);
    let d = decimal(id);
    lemma_decimal_digits(id);
    assert(p.len() == 3 + d.len());
    assert forall|i: int| 3 <= i < p.len() implies is_digit(#[trigger] p[i]) by {
        assert(p[i] == d[i - 3]);
    }
    lemma_digit_run_to(p, 3, p.len() as int);
    assert(ping_at(p, 0));
    assert(p.subrange(3, p.len() as int) =~= d);

    let n = encode_utf8(p).len();
    let ln = decimal(n);
    lemma_decimal_digits(n);
    let e = envelope_of(p);
    let j: int = 3 + ln.len() as int;
    assert(e.len() == j + 3 + p.len());
    assert forall|i: int| 3 <= i < j implies is_digit(#[trigger] e[i]) by {
        assert(e[i] == ln[i - 3]);
    }
    assert(e[j] == '~');
    lemma_digit_run_to(e, 3, j);
    assert(tag_at(e, 0, 'm'));
    assert(tag_at(e, j, 'm'));
    assert(marker_end(e, 0) == Some(j + 3));
    let b: int = j + 3;
    assert forall|q: int| b <= q < e.len() implies #[trigger] marker_end(e, q) is None by {
        if q >= b + 3 {
            assert(is_digit(e[q])) by {
                assert(e[q] == p[q - b]);
            }
        } else if q == b {
            assert(e[q + 1] == 'h');
        } else if q == b + 1 {
            assert(e[q] == 'h');
        } else {
            assert(e[q + 1] == p[3]);
        }
    }
    lemma_split_without_markers(e, b, b);
    assert(e.subrange(0, 0) =~= Seq::<char>::empty());
    assert(e.subrange(b, e.len() as int) =~= p);
    let parts = split_from(e, 0, 0);
    assert(parts =~= seq![Seq::<char>::empty(), p]);
    assert(parts.drop_first() =~= seq![p]);
}

/// Tests whether `c` is an ASCII decimal digit.
pub fn is_ascii_digit(c: char) -> (r: bool)
    ensures
        r == is_digit(c),
{
    '0' <= c && c <= '9'
}

/// The characters of `s`, in order.
pub fn chars_of(s: &str) -> (r: Vec<char>)
    ensures
        r@ == s@,
{
    let mut out: Vec<char> = Vec::new();
    for c in it: s.chars()
        invariant
            out@ == it.seq().subrange(0, it.index() as int),
    {
        out.push(c);
    }
    assert(out@ =~= s@);
    out
}

/// The view of each string of `v`.
pub open spec fn texts(v: Seq<String>) -> Seq<Seq<char>> {
    v.map_values(|x: String| x@)
}

/// The one-character literal of the digit `d`.
fn digit_text(d: u64) -> (r: &'static str)
    requires
        d < 10,
    ensures
        r@ == seq![digit_char(d as nat)],
{
    proof {
        reveal_strlit("0");
        reveal_strlit("1");
        reveal_strlit("2");
        reveal_strlit("3");
        reveal_strlit("4");
        reveal_strlit("5");
        reveal_strlit("6");
        reveal_strlit("7");
        reveal_strlit("8");
        reveal_strlit("9");
    }
    if d == 0 {
        "0"
    } else if d == 1 {
        "1"
    } else if d == 2 {
        "2"
    } else if d == 3 {
        "3"
    } else if d == 4 {
        "4"
    } else if d == 5 {
        "5"
    } else if d == 6 {
        "6"
    } else if d == 7 {
        "7"
    } else if d == 8 {
        "8"
    } else {
        "9"
    }
}

/// The decimal numeral of `n`.
pub fn format_decimal(n: u64) -> (r: String)
    ensures
        r@ == decimal(n as nat),
    decreases n,
{
    if n < 10 {
        String::from_str(digit_text(n))
    } else {
        let mut s = format_decimal(n / 10);
        s.append(digit_text(n % 10));
        s
    }
}

proof fn lemma_decimal_value_prefix(s: Seq<char>, k: int)
    requires
        0 <= k <= s.len(),
    ensures
        decimal_value(s.subrange(0, k)) <= decimal_value(s),
    decreases s.len(),
{
    if k < s.len() {
        let t = s.drop_last();
        assert(t.subrange(0, k) =~= s.subrange(0, k));
        lemma_decimal_value_prefix(t, k);
    } else {
        assert(s.subrange(0, k) =~= s);
    }
}

/// The number that the digits `s[from..to]` spell, or `None` where it does not fit in a `usize`.
pub fn parse_decimal(s: &Vec<char>, from: usize, to: usize) -> (r: Option<usize>)
    requires
        from <= to <= s@.len(),
        forall|k: int| from <= k < to ==> is_digit(#[trigger] s@[k]),
    ensures
        ({
            let v = decimal_value(s@.subrange(from as int, to as int));
            if v <= usize::MAX {
                r == Some(v as usize)
            } else {
                r is None
            }
        }),
{
    let ghost digits = s@.subrange(from as int, to as int);
    let mut acc: usize = 0;
    let mut i: usize = from;
    while i < to
        invariant
            from <= i <= to <= s@.len(),
            digits == s@.subrange(from as int, to as int),
            forall|k: int| from <= k < to ==> is_digit(#[trigger] s@[k]),
            acc == decimal_value(s@.subrange(from as int, i as int)),
        decreases to - i,
    {
        let c = s[i];
        assert(is_digit(s@[i as int]));
        let d = (c as u32 - '0' as u32) as usize;
        let ghost prefix = s@.subrange(from as int, i + 1);
        assert(prefix.drop_last() =~= s@.subrange(from as int, i as int));
        assert(decimal_value(prefix) == acc * 10 + d);
        if acc > (usize::MAX - d) / 10 {
            proof {
                assert(acc * 10 + d > usize::MAX) by (nonlinear_arith)
                    requires
                        acc > (usize::MAX - d) / 10,
                        d < 10,
                ;
                assert(digits.subrange(0, i + 1 - from) =~= prefix);
                lemma_decimal_value_prefix(digits, i + 1 - from);
            }
            return None;
        }
        proof {
            assert(acc * 10 + d <= usize::MAX) by (nonlinear_arith)
                requires
                    acc <= (usize::MAX - d) / 10,
                    d < 10,
            ;
        }
        acc = acc * 10 + d;
        i = i + 1;
    }
    Some(acc)
}

/// Tests whether `s` holds `~`, `x`, `~` from `i`.
fn tag_at_exec(s: &Vec<char>, i: usize, x: char) -> (r: bool)
    ensures
        r == tag_at(s@, i as int, x),
{
    i <= s.len() && s.len() - i >= 3 && s[i] == '~' && s[i + 1] == x && s[i + 2] == '~'
}

/// The end of the run of digits of `s` that starts at `j`.
fn digit_run_end_exec(s: &Vec<char>, j: usize) -> (r: usize)
    requires
        j <= s@.len(),
    ensures
        r == digit_run_end(s@, j as int),
        j <= r <= s@.len(),
        forall|k: int| j <= k < r ==> is_digit(#[trigger] s@[k]),
{
    let mut k = j;
    while k < s.len() && is_ascii_digit(s[k])
        invariant
            j <= k <= s@.len(),
            digit_run_end(s@, j as int) == digit_run_end(s@, k as int),
            forall|m: int| j <= m < k ==> is_digit(#[trigger] s@[m]),
        decreases s@.len() - k,
    {
        k = k + 1;
    }
    k
}

/// Where the envelope marker that starts at `i` ends, if one starts there.
fn marker_end_at(s: &Vec<char>, i: usize) -> (r: Option<usize>)
    requires
        i < s@.len(),
    ensures
        match r {
            Some(e) => marker_end(s@, i as int) == Some(e as int),
            None => marker_end(s@, i as int) is None,
        },
{
    let n = s.len();
    if !tag_at_exec(s, i, 'm') {
        return None;
    }
    assert(i + 3 <= n);
    let j = digit_run_end_exec(s, i + 3);
    if j > i + 3 && tag_at_exec(s, j, 'm') {
        Some(j + 3)
    } else {
        None
    }
}

/// Splits a decoded payload into the messages that its envelopes carry, in order.
pub fn split_envelopes(payload: &str) -> (r: Vec<String>)
    ensures
        texts(r@) == envelope_segments(payload@),
{
    let s = chars_of(payload);
    let n = s.len();
    let mut parts: Vec<String> = Vec::new();
    let mut start: usize = 0;
    let mut pos: usize = 0;
    while pos < n
        invariant
            n == s@.len(),
            s@ == payload@,
            start <= pos <= n,
            texts(parts@) + split_from(s@, start as int, pos as int) == split_from(s@, 0, 0),
        decreases n - pos,
    {
        match marker_end_at(&s, pos) {
            Some(e) => {
                let piece = String::from_str(payload.substring_char(start, pos));
                proof {
                    assert(texts(parts@.push(piece)) =~= texts(parts@).push(piece@));
                }
                parts.push(piece);
                start = e;
                pos = e;
            },
            None => {
                pos = pos + 1;
            },
        }
    }
    let last = String::from_str(payload.substring_char(start, n));
    proof {
        assert(texts(parts@.push(last)) =~= texts(parts@).push(last@));
    }
    parts.push(last);
    assert(texts(parts@) =~= split_from(s@, 0, 0));
    if parts[0].as_str().is_empty() {
        let ghost before = parts@;
        parts.remove(0);
        assert(texts(parts@) =~= texts(before).drop_first());
    }
    parts
}

/// Where the leftmost ping literal of `s` has its digits: from the first to
/// the end of their run.
pub fn find_ping(s: &Vec<char>) -> (r: Option<(usize, usize)>)
    ensures
        match r {
            Some((a, b)) => {
                &&& ping_digits(s@) == Some(s@.subrange(a as int, b as int))
                &&& a < b <= s@.len()
                &&& forall|k: int| a <= k < b ==> is_digit(#[trigger] s@[k])
            },
            None => ping_digits(s@) is None,
        },
{
    let n = s.len();
    let mut i: usize = 0;
    while i < n
        invariant
            n == s@.len(),
            i <= n,
            first_ping_from(s@, 0) == first_ping_from(s@, i as int),
        decreases n - i,
    {
        if tag_at_exec(s, i, 'h') && i + 3 < n && is_ascii_digit(s[i + 3]) {
            let end = digit_run_end_exec(s, i + 4);
            assert(digit_run_end(s@, i + 3) == digit_run_end(s@, i + 4));
            return Some((i + 3, end));
        }
        i = i + 1;
    }
    None
}

/// The envelope around one outgoing message.
pub fn wrap_envelope(payload: &str) -> (r: String)
    ensures
        r@ == envelope_of(payload@),
{
    proof {
        reveal_strlit("~m~");
    }
    assert("~m~"@ =~= message_tag());
    let mut r = String::from_str("~m~");
    let len = payload.as_bytes().len();
    let digits = format_decimal(len as u64);
    r.append(digits.as_str());
    r.append("~m~");
    r.append(payload);
    assert(r@ =~= envelope_of(payload@));
    r
}

/// The literal that answers the ping of number `id`.
pub fn pong_text(id: usize) -> (r: String)
    ensures
        r@ == pong_of(id as nat),
{
    proof {
        reveal_strlit("~h~");
    }
    assert("~h~"@ =~= ping_tag());
    let mut r = String::from_str("~h~");
    let digits = format_decimal(id as u64);
    r.append(digits.as_str());
    assert(r@ =~= pong_of(id as nat));
    r
}

} // verus!
