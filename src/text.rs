use vstd::prelude::*;
use crate::vec2::Vec2;

verus! {

/// The decimal digit for `d`, which is below ten.
pub open spec fn digit_char(d: int) -> char {
    if d == 0 {
        '0'
    } else if d == 1 {
        '1'
    } else if d == 2 {
        '2'
    } else if d == 3 {
        '3'
    } else if d == 4 {
        '4'
    } else if d == 5 {
        '5'
    } else if d == 6 {
        '6'
    } else if d == 7 {
        '7'
    } else if d == 8 {
        '8'
    } else {
        '9'
    }
}

/// The decimal digits of `n`, without leading zeros.
pub open spec fn nat_text(n: nat) -> Seq<char>
    decreases n,
{
    if n < 10 {
        seq![digit_char(n as int)]
    } else {
        nat_text(n / 10).push(digit_char((n % 10) as int))
    }
}

/// The decimal form of `v`, with a leading `-` when it is negative.
pub open spec fn int_text(v: int) -> Seq<char> {
    if v < 0 {
        seq!['-'] + nat_text((-v) as nat)
    } else {
        nat_text(v as nat)
    }
}

/// The canonical form `(x,y)` of a coordinate.
pub open spec fn vec2_text(v: Vec2) -> Seq<char> {
    seq!['('] + int_text(v.x as int) + seq![','] + int_text(v.y as int) + seq![')']
}

pub open spec fn is_space(c: char) -> bool {
    c == ' ' || c == '\t' || c == '\n' || c == '\r'
}

pub open spec fn is_digit(c: char) -> bool {
    '0' <= c <= '9'
}

/// The first index at or after `i` that does not hold a space.
pub open spec fn spaces_end(s: Seq<char>, i: int) -> int
    decreases s.len() - i,
{
    if 0 <= i < s.len() && is_space(s[i]) {
        spaces_end(s, i + 1)
    } else {
        i
    }
}

/// The first index at or after `i` that does not hold a digit.
pub open spec fn digits_end(s: Seq<char>, i: int) -> int
    decreases s.len() - i,
{
    if 0 <= i < s.len() && is_digit(s[i]) {
        digits_end(s, i + 1)
    } else {
        i
    }
}

/// The number written by the digits from `i` up to `j`.
pub open spec fn digits_value(s: Seq<char>, i: int, j: int) -> nat
    decreases j - i,
{
    if j <= i {
        0
    } else {
        digits_value(s, i, j - 1) * 10 + ((s[j - 1] as int) - ('0' as int)) as nat
    }
}

/// The integer written at `i`, an optional `-` and one or more digits, with
/// the index just after it.
pub open spec fn int_at(s: Seq<char>, i: int) -> Option<(int, int)> {
    let neg = 0 <= i < s.len() && s[i] == '-';
    let start = if neg {
        i + 1
    } else {
        i
    };
    let end = digits_end(s, start);
    if end == start {
        None
    } else {
        let v = digits_value(s, start, end) as int;
        Some((
            if neg {
                -v
            } else {
                v
            },
            end,
        ))
    }
}

/// `s` holds the character `c` at `i`.
pub open spec fn char_at(s: Seq<char>, i: int, c: char) -> bool {
    0 <= i < s.len() && s[i] == c
}

pub open spec fn fits_i32(v: int) -> bool {
    i32::MIN <= v <= i32::MAX
}

/// The coordinate written in `s` as `( int , int )`, spaces allowed between
/// the parts and around the whole.
pub open spec fn parse_vec2(s: Seq<char>) -> Option<Vec2> {
    let open_at = spaces_end(s, 0);
    if !char_at(s, open_at, '(') {
        None
    } else {
        match int_at(s, spaces_end(s, open_at + 1)) {
            None => None,
            Some((x, x_end)) => {
                let comma_at = spaces_end(s, x_end);
                if !char_at(s, comma_at, ',') {
                    None
                } else {
                    match int_at(s, spaces_end(s, comma_at + 1)) {
                        None => None,
                        Some((y, y_end)) => {
                            let close_at = spaces_end(s, y_end);
                            if !char_at(s, close_at, ')') || spaces_end(s, close_at + 1) != s.len()
                                || !fits_i32(x) || !fits_i32(y) {
                                None
                            } else {
                                Some(Vec2 { x: x as i32, y: y as i32 })
                            }
                        },
                    }
                }
            },
        }
    }
}

proof fn lemma_digit_char(d: int)
    requires
        0 <= d < 10,
    ensures
        is_digit(digit_char(d)),
        (digit_char(d) as int) - ('0' as int) == d,
        !is_space(digit_char(d)),
        digit_char(d) != '-',
{
}

proof fn lemma_nat_text_digits(n: nat)
    ensures
        nat_text(n).len() >= 1,
        forall|m: int| 0 <= m < nat_text(n).len() ==> is_digit(#[trigger] nat_text(n)[m]),
    decreases n,
{
    lemma_digit_char((n % 10) as int);
    if n >= 10 {
        lemma_nat_text_digits(n / 10);
        let t = nat_text(n / 10);
        assert forall|m: int| 0 <= m < nat_text(n).len() implies is_digit(
            #[trigger] nat_text(n)[m],
        ) by {
            if m < t.len() {
                assert(nat_text(n)[m] == t[m]);
            }
        }
    }
}

proof fn lemma_value_of_text(s: Seq<char>, i: int, n: nat)
    requires
        0 <= i,
        i + nat_text(n).len() <= s.len(),
        s.subrange(i, i + nat_text(n).len()) == nat_text(n),
    ensures
        digits_value(s, i, i + nat_text(n).len()) == n,
    decreases n,
{
    let len = nat_text(n).len() as int;
    lemma_digit_char((n % 10) as int);
    assert(s[i + len - 1] == s.subrange(i, i + len)[len - 1]);
    if n >= 10 {
        let t = nat_text(n / 10);
        assert(s.subrange(i, i + t.len()) =~= s.subrange(i, i + len).subrange(0, t.len() as int));
        assert(nat_text(n).subrange(0, t.len() as int) =~= t);
        lemma_value_of_text(s, i, n / 10);
    } else {
        assert(digits_value(s, i, i) == 0);
    }
}

proof fn lemma_digits_end_at(s: Seq<char>, i: int, k: int)
    requires
        0 <= i <= k <= s.len(),
        forall|m: int| i <= m < k ==> is_digit(#[trigger] s[m]),
        k == s.len() || !is_digit(s[k]),
    ensures
        digits_end(s, i) == k,
    decreases k - i,
{
    if i < k {
        lemma_digits_end_at(s, i + 1, k);
    }
}

/// The decimal form of `v` written at `i` and followed by a non-digit reads
/// back as `v`.
proof fn lemma_int_at_text(s: Seq<char>, i: int, v: int)
    requires
        0 <= i,
        i + int_text(v).len() < s.len(),
        s.subrange(i, i + int_text(v).len()) == int_text(v),
        !is_digit(s[i + int_text(v).len()]),
    ensures
        int_at(s, i) == Some((v, i + int_text(v).len())),
{
    let n: nat = if v < 0 {
        (-v) as nat
    } else {
        v as nat
    };
    let start = if v < 0 {
        i + 1
    } else {
        i
    };
    let t = nat_text(n);
    lemma_nat_text_digits(n);
    assert(s.subrange(start, start + t.len()) =~= s.subrange(i, i + int_text(v).len()).subrange(
        start - i,
        start - i + t.len(),
    ));
    assert(int_text(v).subrange(start - i, start - i + t.len()) =~= t);
    if v < 0 {
        assert(s[i] == s.subrange(i, i + int_text(v).len())[0]);
    } else {
        assert(s[i] == t[0]);
    }
    assert forall|m: int| start <= m < start + t.len() implies is_digit(#[trigger] s[m]) by {
        assert(s[m] == s.subrange(start, start + t.len())[m - start]);
    }
    lemma_digits_end_at(s, start, start + t.len());
    lemma_value_of_text(s, start, n);
}

/// Reading the canonical form of a coordinate gives the coordinate back.
pub proof fn lemma_vec2_text_round_trip(v: Vec2)
    ensures
        parse_vec2(vec2_text(v)) == Some(v),
{
    let tx = int_text(v.x as int);
    let ty = int_text(v.y as int);
    let s = vec2_text(v);
    lemma_nat_text_digits(if v.x < 0 { (-v.x) as nat } else { v.x as nat });
    lemma_nat_text_digits(if v.y < 0 { (-v.y) as nat } else { v.y as nat });
    let px: int = 1;
    let pc: int = 1 + tx.len() as int;
    let py: int = pc + 1;
    let pr: int = py + ty.len() as int;
    assert(s.len() == pr + 1);
    assert(s[0] == '(');
    assert(s.subrange(px, pc) =~= tx);
    assert(s[pc as int] == ',');
    assert(s.subrange(py, pr) =~= ty);
    assert(s[pr as int] == ')');
    lemma_int_at_text(s, px, v.x as int);
    lemma_int_at_text(s, py, v.y as int);
    assert(!is_space(s[px]));
    assert(!is_space(s[py]));
    assert(spaces_end(s, 0) == 0);
    assert(spaces_end(s, px) == px);
    assert(spaces_end(s, pc) == pc);
    assert(spaces_end(s, py) == py);
    assert(spaces_end(s, pr) == pr);
    assert(spaces_end(s, pr + 1) == pr + 1);
}

fn digit_str(d: u64) -> (r: &'static str)
    requires
        d < 10,
    ensures
        r@ == seq![digit_char(d as int)],
{
    proof {
        reveal_strlit("0");
        reveal_strlit("1");
        reveal_strlit("2");
        reveal_strlit("3");
        reveal_strlit("4");
        reveal_strlit("5");
        reveal_strlit("6");
        reveal_strlit("7");
        reveal_strlit("8");
        reveal_strlit("9");
    }
    if d == 0 {
        "0"
    } else if d == 1 {
        "1"
    } else if d == 2 {
        "2"
    } else if d == 3 {
        "3"
    } else if d == 4 {
        "4"
    } else if d == 5 {
        "5"
    } else if d == 6 {
        "6"
    } else if d == 7 {
        "7"
    } else if d == 8 {
        "8"
    } else {
        "9"
    }
}

fn push_nat(s: &mut String, n: u64)
    ensures
        final(s)@ == old(s)@ + nat_text(n as nat),
    decreases n,
{
    if n >= 10 {
        push_nat(s, n / 10);
    }
    s.append(digit_str(n % 10));
    proof {
        if n >= 10 {
            assert(nat_text(n as nat) == nat_text((n / 10) as nat).push(digit_char((n % 10) as int)));
        }
    }
}

fn push_int(s: &mut String, v: i32)
    ensures
        final(s)@ == old(s)@ + int_text(v as int),
{
    if v < 0 {
        proof {
            reveal_strlit("-");
        }
        s.append("-");
        let n: u64 = (-(v as i64)) as u64;
        push_nat(s, n);
    } else {
        push_nat(s, v as u64);
    }
}

/// The value of a run of digits does not shrink as the run grows.
proof fn lemma_digits_value_grows(s: Seq<char>, i: int, j: int, k: int)
    requires
        i <= j <= k,
        forall|m: int| i <= m < k ==> is_digit(#[trigger] s[m]),
    ensures
        digits_value(s, i, j) <= digits_value(s, i, k),
    decreases k - j,
{
    if j < k {
        lemma_digits_value_grows(s, i, j, k - 1);
        assert(is_digit(s[k - 1]));
    }
}

proof fn lemma_digits_end_bounds(s: Seq<char>, i: int)
    requires
        0 <= i <= s.len(),
    ensures
        i <= digits_end(s, i) <= s.len(),
        forall|m: int| i <= m < digits_end(s, i) ==> is_digit(#[trigger] s[m]),
    decreases s.len() - i,
{
    if i < s.len() && is_digit(s[i]) {
        lemma_digits_end_bounds(s, i + 1);
    }
}

fn collect_chars(s: &str) -> (r: Vec<char>)
    ensures
        r@ == s@,
{
    let n = s.unicode_len();
    let mut v: Vec<char> = Vec::new();
    let mut i: usize = 0;
    while i < n
        invariant
            n == s@.len(),
            i <= n,
            v@ == s@.subrange(0, i as int),
        decreases n - i,
    {
        v.push(s.get_char(i));
        i = i + 1;
    }
    assert(v@ =~= s@);
    v
}

fn skip_spaces(v: &Vec<char>, i: usize) -> (r: usize)
    requires
        i <= v@.len(),
    ensures
        r == spaces_end(v@, i as int),
        i <= r <= v@.len(),
{
    let mut j = i;
    while j < v.len() && (v[j] == ' ' || v[j] == '\t' || v[j] == '\n' || v[j] == '\r')
        invariant
            i <= j <= v@.len(),
            spaces_end(v@, j as int) == spaces_end(v@, i as int),
        decreases v@.len() - j,
    {
        j = j + 1;
    }
    j
}

/// Reads the integer at `i`; `None` when there is none or it does not fit an
/// `i32`.
fn read_int(v: &Vec<char>, i: usize) -> (r: Option<(i32, usize)>)
    requires
        i <= v@.len(),
    ensures
        match int_at(v@, i as int) {
            Some((val, end)) => if fits_i32(val) {
                r == Some((val as i32, end as usize)) && end <= v@.len()
            } else {
                r is None
            },
            None => r is None,
        },
        r matches Some((_, e)) ==> e <= v@.len(),
        r matches Some((val, e)) ==> int_at(v@, i as int) == Some((val as int, e as int)),
{
    let neg = i < v.len() && v[i] == '-';
    let start = if neg {
        i + 1
    } else {
        i
    };
    proof {
        lemma_digits_end_bounds(v@, start as int);
    }
    let ghost end = digits_end(v@, start as int);
    let mut val: i64 = 0;
    let mut j = start;
    while j < v.len() && '0' <= v[j] && v[j] <= '9'
        invariant
            neg == (i < v@.len() && v@[i as int] == '-'),
            start == if neg {
                i + 1
            } else {
                i as int
            },
            start <= j <= end,
            end == digits_end(v@, start as int),
            end <= v@.len(),
            digits_end(v@, j as int) == end,
            val == digits_value(v@, start as int, j as int),
            val <= 2147483648,
            forall|m: int| start <= m < end ==> is_digit(#[trigger] v@[m]),
        decreases v@.len() - j,
    {
        proof {
            lemma_digits_end_bounds(v@, j as int + 1);
        }
        let d = (v[j] as u32 - '0' as u32) as i64;
        let next = val * 10 + d;
        if next > 2147483648 {
            proof {
                lemma_digits_value_grows(v@, start as int, j as int + 1, end);
            }
            return None;
        }
        val = next;
        j = j + 1;
    }
    if j == start {
        return None;
    }
    if neg {
        Some(((-val) as i32, j))
    } else if val <= 2147483647 {
        Some((val as i32, j))
    } else {
        None
    }
}

impl Vec2 {
    /// Reads a coordinate written `(x,y)`; spaces may stand between the parts
    /// and around the whole.
    pub fn from_str(s: &str) -> (r: Result<Vec2, ()>)
        ensures
            match parse_vec2(s@) {
                Some(v) => r == Ok::<Vec2, ()>(v),
                None => r is Err,
            },
    {
        let v = collect_chars(s);
        let open_at = skip_spaces(&v, 0);
        if !(open_at < v.len() && v[open_at] == '(') {
            return Err(());
        }
        let x_at = skip_spaces(&v, open_at + 1);
        let (x, x_end) = match read_int(&v, x_at) {
            Some(t) => t,
            None => {
                return Err(());
            },
        };
        let comma_at = skip_spaces(&v, x_end);
        if !(comma_at < v.len() && v[comma_at] == ',') {
            return Err(());
        }
        let y_at = skip_spaces(&v, comma_at + 1);
        let (y, y_end) = match read_int(&v, y_at) {
            Some(t) => t,
            None => {
                return Err(());
            },
        };
        let close_at = skip_spaces(&v, y_end);
        if !(close_at < v.len() && v[close_at] == ')') {
            return Err(());
        }
        let tail_end = skip_spaces(&v, close_at + 1);
        if tail_end != v.len() {
            return Err(());
        }
        Ok(Vec2 { x, y })
    }

    /// The canonical form `(x,y)`.
    pub fn to_string(&self) -> (r: String)
        ensures
            r@ == vec2_text(*self),
    {
        proof {
            reveal_strlit("(");
            reveal_strlit(",");
            reveal_strlit(")");
        }
        let mut s = String::from_str("(");
        push_int(&mut s, self.x);
        s.append(",");
        push_int(&mut s, self.y);
        s.append(")");
        s
    }
}

} // verus!
