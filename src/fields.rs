//! The colon-separated fields of a registry line, and the decimal weight field.
use vstd::prelude::*;

verus! {

/// The fields of `s` between colons, as `str::split(':')` yields them: one
/// more field than there are colons, empty fields included.
pub open spec fn split_fields(s: Seq<char>) -> Seq<Seq<char>>
    decreases s.len(),
{
    if s.len() == 0 {
        seq![Seq::<char>::empty()]
    } else {
        let f = split_fields(s.drop_last());
        if s.last() == ':' {
            f.push(Seq::<char>::empty())
        } else {
            f.update(f.len() - 1, f.last().push(s.last()))
        }
    }
}

pub proof fn lemma_split_fields_nonempty(s: Seq<char>)
    ensures
        split_fields(s).len() >= 1,
    decreases s.len(),
{
    if s.len() > 0 {
        lemma_split_fields_nonempty(s.drop_last());
    }
}

/// `s` holds no colon.
pub open spec fn no_colon(s: Seq<char>) -> bool {
    forall|i: int| 0 <= i < s.len() ==> #[trigger] s[i] != ':'
}

/// A text without colons is a single field.
pub proof fn lemma_split_no_colon(s: Seq<char>)
    requires
        no_colon(s),
    ensures
        split_fields(s) == seq![s],
    decreases s.len(),
{
    if s.len() > 0 {
        assert(s[s.len() - 1] != ':');
        assert(no_colon(s.drop_last())) by {
            assert forall|i: int| 0 <= i < s.drop_last().len() implies #[trigger] s.drop_last()[i]
                != ':' by {
                assert(s[i] != ':');
            }
        }
        lemma_split_no_colon(s.drop_last());
        assert(s.drop_last().push(s.last()) =~= s);
        assert(split_fields(s) =~= seq![s]);
    } else {
        assert(s =~= Seq::<char>::empty());
    }
}

/// A colon followed by a text without colons adds that text as one more field.
pub proof fn lemma_split_append_field(a: Seq<char>, b: Seq<char>)
    requires
        no_colon(b),
    ensures
        split_fields(a + seq![':'] + b) == split_fields(a).push(b),
    decreases b.len(),
{
    lemma_split_fields_nonempty(a);
    if b.len() == 0 {
        assert(b =~= Seq::<char>::empty());
        assert((a + seq![':'] + b).drop_last() =~= a);
        assert(a + seq![':'] + b =~= a.push(':'));
    } else {
        let c = a + seq![':'] + b;
        assert(b[b.len() - 1] != ':');
        assert(no_colon(b.drop_last())) by {
            assert forall|i: int| 0 <= i < b.drop_last().len() implies #[trigger] b.drop_last()[i]
                != ':' by {
                assert(b[i] != ':');
            }
        }
        lemma_split_append_field(a, b.drop_last());
        assert(c.drop_last() =~= a + seq![':'] + b.drop_last());
        assert(c.last() == b.last());
        assert(b.drop_last().push(b.last()) =~= b);
        assert(split_fields(c) =~= split_fields(a).push(b));
    }
}

/// Splits a line at every colon.
pub fn split_colons(s: &str) -> (r: Vec<String>)
    ensures
        r@.len() == split_fields(s@).len(),
        forall|k: int| 0 <= k < r@.len() ==> #[trigger] r@[k]@ == split_fields(s@)[k],
{
    let n = s.unicode_len();
    let mut out: Vec<String> = Vec::new();
    let mut start: usize = 0;
    let mut i: usize = 0;
    while i < n
        invariant
            n == s@.len(),
            start <= i <= n,
            split_fields(s@.take(i as int)).len() == out@.len() + 1,
            forall|k: int| 0 <= k < out@.len() ==> #[trigger] out@[k]@ == split_fields(s@.take(i as int))[k],
            split_fields(s@.take(i as int)).last() == s@.subrange(start as int, i as int),
        decreases n - i,
    {
        let c = s.get_char(i);
        let ghost before = split_fields(s@.take(i as int));
        assert(s@.take(i as int + 1).drop_last() =~= s@.take(i as int));
        if c == ':' {
            out.push(String::from_str(s.substring_char(start, i)));
            start = i + 1;
        }
        i = i + 1;
        assert(s@.subrange(start as int, i as int) =~= if c == ':' {
            Seq::<char>::empty()
        } else {
            before.last().push(c)
        });
    }
    out.push(String::from_str(s.substring_char(start, n)));
    assert(s@.take(n as int) =~= s@);
    out
}

/// A decimal digit.
pub open spec fn is_digit(c: char) -> bool {
    '0' <= c && c <= '9'
}

pub open spec fn all_digits(s: Seq<char>) -> bool {
    forall|i: int| 0 <= i < s.len() ==> is_digit(#[trigger] s[i])
}

/// The number that a string of decimal digits writes.
pub open spec fn digits_value(s: Seq<char>) -> int
    decreases s.len(),
{
    if s.len() == 0 {
        0
    } else {
        digits_value(s.drop_last()) * 10 + (s.last() as int - '0' as int)
    }
}

/// The weight that a field gives: it reads as an `i32` (an optional sign,
/// then at least one digit) and is not negative.
pub open spec fn weight_of(s: Seq<char>) -> Option<int> {
    let signed = s.len() > 0 && (s[0] == '+' || s[0] == '-');
    let body = if signed {
        s.drop_first()
    } else {
        s
    };
    if body.len() > 0 && all_digits(body) && digits_value(body) <= i32::MAX && (signed && s[0]
        == '-' ==> digits_value(body) == 0) {
        Some(digits_value(body))
    } else {
        None
    }
}

proof fn lemma_digits_value_nonneg(s: Seq<char>)
    requires
        all_digits(s),
    ensures
        digits_value(s) >= 0,
    decreases s.len(),
{
    if s.len() > 0 {
        lemma_digits_value_nonneg(s.drop_last());
    }
}

/// Reads a weight field.
pub fn parse_weight(s: &str) -> (r: Option<i32>)
    ensures
        match r {
            Some(w) => weight_of(s@) == Some(w as int),
            None => weight_of(s@) is None,
        },
{
    let n = s.unicode_len();
    if n == 0 {
        return None;
    }
    let first = s.get_char(0);
    let signed = first == '+' || first == '-';
    let negative = first == '-';
    let begin: usize = if signed { 1 } else { 0 };
    let ghost body = if signed { s@.drop_first() } else { s@ };
    assert(body =~= s@.subrange(begin as int, n as int));
    if begin == n {
        return None;
    }
    let mut acc: i64 = 0;
    let mut over = false;
    let mut i: usize = begin;
    while i < n
        invariant
            n == s@.len(),
            begin <= i <= n,
            body == s@.subrange(begin as int, n as int),
            n > 0,
            signed == (s@[0] == '+' || s@[0] == '-'),
            negative == (s@[0] == '-'),
            begin == (if signed { 1usize } else { 0usize }),
            body == (if signed { s@.drop_first() } else { s@ }),
            all_digits(s@.subrange(begin as int, i as int)),
            !over ==> acc == digits_value(s@.subrange(begin as int, i as int)) && 0 <= acc <= i32::MAX,
            over ==> digits_value(s@.subrange(begin as int, i as int)) > i32::MAX,
        decreases n - i,
    {
        let c = s.get_char(i);
        if !('0' <= c && c <= '9') {
            assert(body[i - begin] == c);
            assert(!is_digit(body[i - begin]));
            assert(!all_digits(body));
            return None;
        }
        let ghost prev = s@.subrange(begin as int, i as int);
        let ghost next = s@.subrange(begin as int, i as int + 1);
        assert(next.drop_last() =~= prev);
        proof {
            lemma_digits_value_nonneg(prev);
        }
        if !over {
            let d = (c as u32 - '0' as u32) as i64;
            acc = acc * 10 + d;
            if acc > i32::MAX as i64 {
                over = true;
            }
        } else {
            assert(digits_value(next) >= digits_value(prev)) by (nonlinear_arith)
                requires
                    digits_value(next) == digits_value(prev) * 10 + (c as int - '0' as int),
                    digits_value(prev) >= 0,
                    '0' <= c,
            ;
        }
        i = i + 1;
    }
    assert(s@.subrange(begin as int, n as int) =~= body);
    if over || (negative && acc != 0) {
        None
    } else {
        Some(acc as i32)
    }
}

} // verus!
verus! {

/// The digit that writes `d`, for `d` below ten.
pub open spec fn digit_char(d: nat) -> char {
    ((d + '0' as nat) as u8) as char
}

/// The decimal digits of `n`, without leading zeros.
pub open spec fn decimal(n: nat) -> Seq<char>
    decreases n,
{
    if n < 10 {
        seq![digit_char(n)]
    } else {
        decimal(n / 10).push(digit_char(n % 10))
    }
}

/// The digits of `n` read back as `n`.
pub proof fn lemma_decimal(n: nat)
    ensures
        decimal(n).len() > 0,
        all_digits(decimal(n)),
        no_colon(decimal(n)),
        digits_value(decimal(n)) == n,
    decreases n,
{
    let d = decimal(n);
    if n < 10 {
        assert(d.drop_last() =~= Seq::<char>::empty());
        assert(digit_char(n) as int == n + 48);
        assert(d.last() == digit_char(n));
        assert(digits_value(d) == digits_value(d.drop_last()) * 10 + (d.last() as int - '0' as int));
        assert(digits_value(d.drop_last()) == 0);
    } else {
        assert(digit_char(n % 10) as int == n % 10 + 48);
        lemma_decimal(n / 10);
        assert(d.drop_last() =~= decimal(n / 10));
        assert(n == (n / 10) * 10 + n % 10);
        assert(d.last() == digit_char(n % 10));
        assert(digits_value(d) == digits_value(d.drop_last()) * 10 + (d.last() as int - '0' as int));
        assert forall|i: int| 0 <= i < d.len() implies #[trigger] d[i] != ':' && is_digit(d[i]) by {
            if i < d.len() - 1 {
                assert(d[i] == decimal(n / 10)[i]);
            }
        }
    }
}

} // verus!
verus! {

/// The digit that writes `d`.
fn digit_str(d: u32) -> (r: &'static str)
    requires
        d < 10,
    ensures
        r@ == seq![digit_char(d as nat)],
{
    proof {
        reveal_strlit("0");
        reveal_strlit("1");
        reveal_strlit("2");
        reveal_strlit("3");
        reveal_strlit("4");
        reveal_strlit("5");
        reveal_strlit("6");
        reveal_strlit("7");
        reveal_strlit("8");
        reveal_strlit("9");
    }
    let r = match d {
        0 => "0",
        1 => "1",
        2 => "2",
        3 => "3",
        4 => "4",
        5 => "5",
        6 => "6",
        7 => "7",
        8 => "8",
        _ => "9",
    };
    assert(r@ =~= seq![digit_char(d as nat)]);
    r
}

/// The decimal digits of `n`.
pub fn decimal_string(n: u32) -> (r: String)
    ensures
        r@ == decimal(n as nat),
    decreases n,
{
    let d = digit_str(n % 10);
    if n < 10 {
        String::from_str(d)
    } else {
        let mut s = decimal_string(n / 10);
        s.append(d);
        assert(s@ =~= decimal(n as nat));
        s
    }
}

} // verus!
