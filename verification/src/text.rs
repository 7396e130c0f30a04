use vstd::prelude::*;

verus! {

broadcast use vstd::string::group_string_axioms;

/// The pieces of `s` between the occurrences of `sep`, as `str::split` yields them.
pub open spec fn split_on(s: Seq<char>, sep: char) -> Seq<Seq<char>>
    decreases s.len(),
{
    if s.len() == 0 {
        seq![Seq::empty()]
    } else {
        let init = split_on(s.drop_last(), sep);
        if s.last() == sep {
            init.push(Seq::empty())
        } else {
            init.update(init.len() - 1, init.last().push(s.last()))
        }
    }
}

/// Splitting gives at least one piece.
pub proof fn lemma_split_on_len(s: Seq<char>, sep: char)
    ensures
        split_on(s, sep).len() >= 1,
    decreases s.len(),
{
    if s.len() > 0 {
        lemma_split_on_len(s.drop_last(), sep);
    }
}

/// A text without the separator is a single piece.
pub proof fn lemma_split_without_sep(s: Seq<char>, sep: char)
    requires
        !s.contains(sep),
    ensures
        split_on(s, sep) == seq![s],
    decreases s.len(),
{
    if s.len() > 0 {
        assert(!s.drop_last().contains(sep)) by {
            if s.drop_last().contains(sep) {
                let k = choose|k: int| 0 <= k < s.drop_last().len() && s.drop_last()[k] == sep;
                assert(s[k] == sep);
            }
        }
        lemma_split_without_sep(s.drop_last(), sep);
        assert(s[s.len() - 1] != sep);
        assert(s.drop_last().push(s.last()) =~= s);
        assert(seq![s.drop_last()].update(0, s.drop_last().push(s.last())) =~= seq![s]);
    } else {
        assert(s =~= Seq::<char>::empty());
    }
}

/// The pieces of `a`, a separator and `b` are those of `a` followed by those of `b`.
pub proof fn lemma_split_concat(a: Seq<char>, b: Seq<char>, sep: char)
    ensures
        split_on(a + seq![sep] + b, sep) == split_on(a, sep) + split_on(b, sep),
    decreases b.len(),
{
    let s = a + seq![sep] + b;
    lemma_split_on_len(a, sep);
    if b.len() == 0 {
        assert(s.drop_last() =~= a);
        assert(split_on(a, sep).push(Seq::empty()) =~= split_on(a, sep) + split_on(b, sep));
    } else {
        lemma_split_concat(a, b.drop_last(), sep);
        lemma_split_on_len(b.drop_last(), sep);
        assert(s.drop_last() =~= a + seq![sep] + b.drop_last());
        let pa = split_on(a, sep);
        let pb = split_on(b.drop_last(), sep);
        if b.last() == sep {
            assert((pa + pb).push(Seq::empty()) =~= pa + pb.push(Seq::empty()));
        } else {
            assert((pa + pb).update(
                (pa + pb).len() - 1,
                (pa + pb).last().push(b.last()),
            ) =~= pa + pb.update(pb.len() - 1, pb.last().push(b.last())));
        }
    }
}

/// Joining the pieces of `s` with the separator gives `s` back.
pub proof fn lemma_join_split(s: Seq<char>, sep: char)
    ensures
        join_with(split_on(s, sep), seq![sep]) == s,
    decreases s.len(),
{
    if s.len() == 0 {
    } else {
        let init = s.drop_last();
        let p = split_on(init, sep);
        lemma_join_split(init, sep);
        lemma_split_on_len(init, sep);
        if s.last() == sep {
            let q = p.push(Seq::empty());
            assert(q.drop_last() =~= p);
            assert(join_with(p, seq![sep]) + seq![sep] + Seq::<char>::empty() =~= s);
        } else {
            let q = p.update(p.len() - 1, p.last().push(s.last()));
            if p.len() == 1 {
                assert(q[0] =~= s);
            } else {
                assert(q.drop_last() =~= p.drop_last());
                assert(join_with(p.drop_last(), seq![sep]) + seq![sep] + p.last().push(s.last())
                    =~= (join_with(p.drop_last(), seq![sep]) + seq![sep] + p.last()).push(
                    s.last(),
                ));
                assert(s =~= init.push(s.last()));
            }
        }
    }
}

/// Splitting what was joined gives the pieces back, when no piece holds the separator.
pub proof fn lemma_split_join(parts: Seq<Seq<char>>, sep: char)
    requires
        parts.len() >= 1,
        forall|i: int| 0 <= i < parts.len() ==> !(#[trigger] parts[i]).contains(sep),
    ensures
        split_on(join_with(parts, seq![sep]), sep) == parts,
    decreases parts.len(),
{
    if parts.len() == 1 {
        lemma_split_without_sep(parts[0], sep);
        assert(seq![parts[0]] =~= parts);
    } else {
        let init = parts.drop_last();
        assert(forall|i: int| 0 <= i < init.len() ==> init[i] == parts[i]);
        lemma_split_join(init, sep);
        lemma_split_concat(join_with(init, seq![sep]), parts.last(), sep);
        lemma_split_without_sep(parts.last(), sep);
        assert(init + seq![parts.last()] =~= parts);
    }
}

/// No piece of a split holds the separator.
pub proof fn lemma_split_pieces_without_sep(s: Seq<char>, sep: char)
    ensures
        forall|i: int|
            0 <= i < split_on(s, sep).len() ==> !(#[trigger] split_on(s, sep)[i]).contains(sep),
    decreases s.len(),
{
    if s.len() > 0 {
        lemma_split_pieces_without_sep(s.drop_last(), sep);
        lemma_split_on_len(s.drop_last(), sep);
        let p = split_on(s.drop_last(), sep);
        let q = split_on(s, sep);
        assert forall|i: int| 0 <= i < q.len() implies !(#[trigger] q[i]).contains(sep) by {
            if i < p.len() - 1 || (s.last() == sep && i < p.len()) {
                assert(q[i] == p[i]);
            } else if s.last() == sep {
                assert(q[i] =~= Seq::<char>::empty());
            } else {
                let piece = p[p.len() - 1].push(s.last());
                assert(q[i] == piece);
                if piece.contains(sep) {
                    let k = choose|k: int| 0 <= k < piece.len() && piece[k] == sep;
                    assert(p[p.len() - 1][k] == sep);
                }
            }
        }
    }
}

/// Every character of `s` is a separator or a character of one of the pieces.
pub proof fn lemma_split_covers(s: Seq<char>, sep: char, k: int)
    requires
        0 <= k < s.len(),
    ensures
        s[k] == sep || exists|i: int, j: int|
            0 <= i < split_on(s, sep).len() && 0 <= j < split_on(s, sep)[i].len()
                && split_on(s, sep)[i][j] == s[k],
    decreases s.len(),
{
    let p = split_on(s.drop_last(), sep);
    let q = split_on(s, sep);
    lemma_split_on_len(s.drop_last(), sep);
    if k == s.len() - 1 {
        if s.last() != sep {
            let i = p.len() - 1;
            let j = p[i].len() as int;
            assert(q[i][j] == s[k]);
        }
    } else {
        lemma_split_covers(s.drop_last(), sep, k);
        if s[k] != sep {
            let (i, j) = choose|i: int, j: int|
                0 <= i < p.len() && 0 <= j < p[i].len() && p[i][j] == s.drop_last()[k];
            assert(q[i][j] == s[k]);
        }
    }
}

/// The characters of `s`, in order.
pub fn chars_of(s: &str) -> (cs: Vec<char>)
    ensures
        cs@ == s@,
{
    let mut cs: Vec<char> = Vec::new();
    for c in it: s.chars()
        invariant
            cs@ == it.seq().take(it.index() as int),
            it.seq() == s@,
    {
        cs.push(c);
    }
    cs
}

/// Splits `s` at every `sep`, as `str::split` does: there is always at least one piece.
pub fn split_str(s: &str, sep: char) -> (parts: Vec<String>)
    ensures
        parts.deep_view() == split_on(s@, sep),
{
    let cs = chars_of(s);
    let n = cs.len();
    let mut parts: Vec<String> = Vec::new();
    let mut start: usize = 0;
    let mut i: usize = 0;
    assert(parts.deep_view().push(cs@.subrange(0, 0)) =~~= split_on(cs@.take(0), sep));
    while i < n
        invariant
            cs@ == s@,
            n == cs.len(),
            start <= i <= n,
            parts.deep_view().push(cs@.subrange(start as int, i as int)) == split_on(
                cs@.take(i as int),
                sep,
            ),
        decreases n - i,
    {
        let ghost before = parts.deep_view();
        assert(cs@.take(i as int + 1).drop_last() == cs@.take(i as int));
        if cs[i] == sep {
            let piece = s.substring_char(start, i).to_owned();
            parts.push(piece);
            assert(parts.deep_view() =~~= before.push(cs@.subrange(start as int, i as int)));
            start = i + 1;
        } else {
            assert(cs@.subrange(start as int, i as int + 1) == cs@.subrange(
                start as int,
                i as int,
            ).push(cs@[i as int]));
        }
        i = i + 1;
        assert(parts.deep_view().push(cs@.subrange(start as int, i as int)) =~~= split_on(
            cs@.take(i as int),
            sep,
        ));
    }
    assert(cs@.take(n as int) == cs@);
    let last = s.substring_char(start, n).to_owned();
    let ghost before = parts.deep_view();
    parts.push(last);
    assert(parts.deep_view() =~~= before.push(cs@.subrange(start as int, n as int)));
    parts
}

/// The pieces joined with `sep` between each two of them, as `[T]::join` does.
pub open spec fn join_with(parts: Seq<Seq<char>>, sep: Seq<char>) -> Seq<char>
    decreases parts.len(),
{
    if parts.len() == 0 {
        Seq::empty()
    } else if parts.len() == 1 {
        parts[0]
    } else {
        join_with(parts.drop_last(), sep) + sep + parts.last()
    }
}

/// Joins the pieces with `sep` between each two of them.
pub fn join_strings(parts: &Vec<String>, sep: &str) -> (joined: String)
    ensures
        joined@ == join_with(parts.deep_view(), sep@),
{
    let mut joined = String::new();
    let n = parts.len();
    let mut i: usize = 0;
    assert(parts.deep_view().take(0) =~= Seq::<Seq<char>>::empty());
    while i < n
        invariant
            n == parts.len(),
            i <= n,
            joined@ == join_with(parts.deep_view().take(i as int), sep@),
        decreases n - i,
    {
        assert(parts.deep_view().take(i as int + 1).drop_last() =~= parts.deep_view().take(
            i as int,
        ));
        if i == 0 {
            joined.append(parts[i].as_str());
            assert(joined@ =~= join_with(parts.deep_view().take(1), sep@));
        } else {
            joined.append(sep);
            joined.append(parts[i].as_str());
        }
        i = i + 1;
    }
    assert(parts.deep_view().take(n as int) =~= parts.deep_view());
    joined
}

/// Whether `c` is one of the ASCII digits `0` to `9`.
pub open spec fn is_ascii_digit(c: char) -> bool {
    '0' <= c && c <= '9'
}

/// Whether every character of `s` is an ASCII digit.
pub open spec fn all_ascii_digits(s: Seq<char>) -> bool {
    forall|i: int| 0 <= i < s.len() ==> is_ascii_digit(#[trigger] s[i])
}

/// The value of the decimal numeral `s`.
pub open spec fn digits_value(s: Seq<char>) -> int
    decreases s.len(),
{
    if s.len() == 0 {
        0
    } else {
        digits_value(s.drop_last()) * 10 + (s.last() as int - '0' as int)
    }
}

/// What `str::parse::<i32>` accepts and gives back: an optional `+` or `-`, then at least
/// one ASCII digit, with a value that fits in an `i32`.
pub open spec fn parse_i32_spec(s: Seq<char>) -> Option<int> {
    if s.len() == 0 {
        None
    } else {
        let body = if s[0] == '-' || s[0] == '+' {
            s.skip(1)
        } else {
            s
        };
        let magnitude = digits_value(body);
        let value = if s[0] == '-' {
            -magnitude
        } else {
            magnitude
        };
        if body.len() == 0 || !all_ascii_digits(body) {
            None
        } else if i32::MIN <= value <= i32::MAX {
            Some(value)
        } else {
            None
        }
    }
}

proof fn lemma_digits_value_nonneg(s: Seq<char>)
    requires
        all_ascii_digits(s),
    ensures
        digits_value(s) >= 0,
    decreases s.len(),
{
    if s.len() > 0 {
        assert(is_ascii_digit(s[s.len() - 1]));
        lemma_digits_value_nonneg(s.drop_last());
    }
}

proof fn lemma_digits_value_prefix(s: Seq<char>, k: int)
    requires
        all_ascii_digits(s),
        0 <= k <= s.len(),
    ensures
        digits_value(s.take(k)) <= digits_value(s),
    decreases s.len(),
{
    if k < s.len() {
        assert(is_ascii_digit(s[s.len() - 1]));
        lemma_digits_value_nonneg(s.drop_last());
        lemma_digits_value_prefix(s.drop_last(), k);
        assert(s.drop_last().take(k) =~= s.take(k));
    } else {
        assert(s.take(k) =~= s);
    }
}

/// Parses a decimal `i32` as `str::parse::<i32>` does.
pub fn parse_i32(s: &str) -> (parsed: Option<i32>)
    ensures
        parsed matches Some(v) ==> parse_i32_spec(s@) == Some(v as int),
        parsed is None ==> parse_i32_spec(s@) is None,
{
    let cs = chars_of(s);
    let n = cs.len();
    if n == 0 {
        return None;
    }
    let negative = cs[0] == '-';
    let start: usize = if cs[0] == '-' || cs[0] == '+' { 1 } else { 0 };
    let ghost body = if cs@[0] == '-' || cs@[0] == '+' { cs@.skip(1) } else { cs@ };
    assert(body =~= cs@.skip(start as int));
    if start == n {
        return None;
    }
    let mut magnitude: i64 = 0;
    let mut j: usize = start;
    while j < n
        invariant
            cs@ == s@,
            n == cs.len(),
            start <= j <= n,
            body == cs@.skip(start as int),
            s@.len() > 0,
            body == (if s@[0] == '-' || s@[0] == '+' {
                s@.skip(1)
            } else {
                s@
            }),
            all_ascii_digits(body.take(j - start)),
            magnitude == digits_value(body.take(j - start)),
            0 <= magnitude <= 2147483648,
        decreases n - j,
    {
        let c = cs[j];
        if !('0' <= c && c <= '9') {
            assert(body[j - start] == c);
            assert(!all_ascii_digits(body));
            return None;
        }
        assert(body.take(j - start + 1).drop_last() =~= body.take(j - start));
        let d = (c as u32 - '0' as u32) as i64;
        magnitude = magnitude * 10 + d;
        j = j + 1;
        assert(all_ascii_digits(body.take(j - start)));
        if magnitude > 2147483648 {
            proof {
                if all_ascii_digits(body) {
                    lemma_digits_value_prefix(body, j - start);
                    assert(digits_value(body) > 2147483648);
                }
            }
            return None;
        }
    }
    assert(body.take(n - start) =~= body);
    if negative {
        Some((0 - magnitude) as i32)
    } else if magnitude <= 2147483647 {
        Some(magnitude as i32)
    } else {
        None
    }
}

/// The ASCII digit for `d`, which lies in `0..10`.
pub open spec fn digit_char(d: int) -> char {
    ('0' as int + d) as char
}

/// The decimal numeral of `n`, without leading zeros.
pub open spec fn nat_decimal(n: nat) -> Seq<char>
    decreases n,
{
    if n < 10 {
        seq![digit_char(n as int)]
    } else {
        nat_decimal(n / 10).push(digit_char(n as int % 10))
    }
}

/// How `i32`'s `Display` writes `v`: a `-` before negative numbers, then the decimal numeral.
pub open spec fn int_decimal(v: int) -> Seq<char> {
    if v < 0 {
        seq!['-'] + nat_decimal((-v) as nat)
    } else {
        nat_decimal(v as nat)
    }
}

fn digit_str(d: u32) -> (s: &'static str)
    requires
        d < 10,
    ensures
        s@ == seq![digit_char(d as int)],
{
    proof {
        reveal_strlit("0");
        reveal_strlit("1");
        reveal_strlit("2");
        reveal_strlit("3");
        reveal_strlit("4");
        reveal_strlit("5");
        reveal_strlit("6");
        reveal_strlit("7");
        reveal_strlit("8");
        reveal_strlit("9");
    }
    match d {
        0 => "0",
        1 => "1",
        2 => "2",
        3 => "3",
        4 => "4",
        5 => "5",
        6 => "6",
        7 => "7",
        8 => "8",
        _ => "9",
    }
}

fn append_nat_decimal(out: &mut String, n: u32)
    ensures
        final(out)@ == old(out)@ + nat_decimal(n as nat),
    decreases n,
{
    if n >= 10 {
        append_nat_decimal(out, n / 10);
    }
    out.append(digit_str(n % 10));
    assert(final(out)@ =~= old(out)@ + nat_decimal(n as nat));
}

/// Writes `v` in decimal, as `format!("{}", v)` does.
pub fn i32_to_decimal(v: i32) -> (s: String)
    ensures
        s@ == int_decimal(v as int),
{
    let mut s = String::new();
    if v < 0 {
        proof {
            reveal_strlit("-");
        }
        s.append("-");
        let magnitude: u32 = if v == i32::MIN { 2147483648 } else { (0 - v) as u32 };
        append_nat_decimal(&mut s, magnitude);
    } else {
        append_nat_decimal(&mut s, v as u32);
    }
    assert(s@ =~= int_decimal(v as int));
    s
}

proof fn lemma_digit_char(d: int)
    requires
        0 <= d < 10,
    ensures
        digit_char(d) as int == '0' as int + d,
        is_ascii_digit(digit_char(d)),
{
}

proof fn lemma_nat_decimal_digits(n: nat)
    ensures
        nat_decimal(n).len() >= 1,
        all_ascii_digits(nat_decimal(n)),
        digits_value(nat_decimal(n)) == n,
    decreases n,
{
    lemma_digit_char(n as int % 10);
    if n >= 10 {
        lemma_nat_decimal_digits(n / 10);
        let d = nat_decimal(n);
        assert(d.drop_last() =~= nat_decimal(n / 10));
        assert(n == (n / 10) * 10 + n % 10);
        assert forall|i: int| 0 <= i < d.len() implies is_ascii_digit(#[trigger] d[i]) by {
            if i < d.len() - 1 {
                assert(d[i] == nat_decimal(n / 10)[i]);
            }
        }
    } else {
        let d = nat_decimal(n);
        assert(d.drop_last() =~= Seq::<char>::empty());
        assert(digits_value(d.drop_last()) == 0);
    }
}

/// A decimal numeral holds only digits and `-`, so no other character.
pub proof fn lemma_decimal_chars(v: int, c: char)
    requires
        !is_ascii_digit(c),
        c != '-',
    ensures
        !int_decimal(v).contains(c),
{
    let d = int_decimal(v);
    if v < 0 {
        lemma_nat_decimal_digits((-v) as nat);
        if d.contains(c) {
            let k = choose|k: int| 0 <= k < d.len() && d[k] == c;
            if k > 0 {
                assert(d[k] == nat_decimal((-v) as nat)[k - 1]);
            }
        }
    } else {
        lemma_nat_decimal_digits(v as nat);
        if d.contains(c) {
            let k = choose|k: int| 0 <= k < d.len() && d[k] == c;
            assert(is_ascii_digit(d[k]));
        }
    }
}

/// Reading back what [`i32_to_decimal`] writes gives the same number.
pub proof fn lemma_parse_decimal_roundtrip(v: i32)
    ensures
        parse_i32_spec(int_decimal(v as int)) == Some(v as int),
{
    if v < 0 {
        let m = (-v) as nat;
        lemma_nat_decimal_digits(m);
        let s = int_decimal(v as int);
        assert(s.skip(1) =~= nat_decimal(m));
    } else {
        lemma_nat_decimal_digits(v as nat);
        let d = nat_decimal(v as nat);
        assert(is_ascii_digit(d[0]));
    }
}

} // verus!
