use vstd::prelude::*;
use crate::arch::{
    lower_seq, opcode_named, reg_named, string_from_chars, ArchError, OpCode, RegMnem,
};

verus! {

/// Whitespace that separates tokens.
pub open spec fn is_ws(c: char) -> bool {
    c == ' ' || c == '\t' || c == '\n' || c == '\r' || c == '\x0B' || c == '\x0C'
}

/// The text without its leading whitespace.
pub open spec fn trim_start(s: Seq<char>) -> Seq<char>
    decreases s.len(),
{
    if s.len() > 0 && is_ws(s[0]) {
        trim_start(s.drop_first())
    } else {
        s
    }
}

/// The text without its trailing whitespace.
pub open spec fn trim_end(s: Seq<char>) -> Seq<char>
    decreases s.len(),
{
    if s.len() > 0 && is_ws(s.last()) {
        trim_end(s.drop_last())
    } else {
        s
    }
}

/// The text up to, not including, the first `c`.
pub open spec fn cut_at(s: Seq<char>, c: char) -> Seq<char>
    decreases s.len(),
{
    if s.len() == 0 {
        s
    } else if s[0] == c {
        Seq::empty()
    } else {
        seq![s[0]] + cut_at(s.drop_first(), c)
    }
}

/// The text with every `c` deleted.
pub open spec fn remove_char(s: Seq<char>, c: char) -> Seq<char>
    decreases s.len(),
{
    if s.len() == 0 {
        s
    } else if s[0] == c {
        remove_char(s.drop_first(), c)
    } else {
        seq![s[0]] + remove_char(s.drop_first(), c)
    }
}

/// The text with each occurrence of `pat`, scanned left to right without
/// overlap, replaced by `rep`.
pub open spec fn replace_all(s: Seq<char>, pat: Seq<char>, rep: Seq<char>) -> Seq<char>
    decreases s.len(),
{
    if s.len() == 0 {
        s
    } else if pat.len() > 0 && pat.len() <= s.len() && s.subrange(0, pat.len() as int) == pat {
        rep + replace_all(s.subrange(pat.len() as int, s.len() as int), pat, rep)
    } else {
        seq![s[0]] + replace_all(s.drop_first(), pat, rep)
    }
}

/// One source line made ready for splitting: trimmed, cut at the comment
/// sign, commas deleted, then the two macros and the three port names
/// written out.
pub open spec fn preprocess_spec(s: Seq<char>) -> Seq<char> {
    let a = remove_char(cut_at(trim_end(trim_start(s)), ';'), ',');
    let b = replace_all(replace_all(a, "jmp"@, "set pc "@), "JMP"@, "set pc "@);
    let c = replace_all(replace_all(b, "ret"@, "pop pc "@), "RET"@, "pop pc "@);
    replace_all(replace_all(replace_all(c, "OUT"@, "0x8000"@), "IN"@, "0x8001"@), "END"@, "0xffff"@)
}

/// The characters of `s` from `lo` to `hi`.
pub fn slice_chars(s: &Vec<char>, lo: usize, hi: usize) -> (r: Vec<char>)
    requires
        lo <= hi <= s@.len(),
    ensures
        r@ == s@.subrange(lo as int, hi as int),
{
    let mut r: Vec<char> = Vec::new();
    let mut i: usize = lo;
    while i < hi
        invariant
            lo <= i <= hi,
            hi <= s@.len(),
            r@ =~= s@.subrange(lo as int, i as int),
        decreases hi - i,
    {
        r.push(s[i]);
        i = i + 1;
    }
    r
}

/// The characters of a string.
pub fn chars_of(s: &str) -> (r: Vec<char>)
    ensures
        r@ == s@,
{
    let n = s.unicode_len();
    let mut r: Vec<char> = Vec::new();
    let mut i: usize = 0;
    while i < n
        invariant
            n == s@.len(),
            i <= n,
            r@ =~= s@.subrange(0, i as int),
        decreases n - i,
    {
        r.push(s.get_char(i));
        i = i + 1;
    }
    r
}

pub fn is_ws_char(c: char) -> (r: bool)
    ensures
        r == is_ws(c),
{
    c == ' ' || c == '\t' || c == '\n' || c == '\r' || c == '\x0B' || c == '\x0C'
}

/// The text without leading and trailing whitespace.
pub fn trim(s: &Vec<char>) -> (r: Vec<char>)
    ensures
        r@ == trim_end(trim_start(s@)),
{
    let n = s.len();
    let mut i: usize = 0;
    assert(s@.subrange(0, n as int) =~= s@);
    while i < n && is_ws_char(s[i])
        invariant
            n == s@.len(),
            i <= n,
            trim_start(s@.subrange(i as int, n as int)) == trim_start(s@),
        decreases n - i,
    {
        assert(s@.subrange(i as int, n as int).drop_first() =~= s@.subrange(i + 1, n as int));
        i = i + 1;
    }
    let mut j: usize = n;
    while j > i && is_ws_char(s[j - 1])
        invariant
            n == s@.len(),
            i <= j <= n,
            trim_start(s@) == s@.subrange(i as int, n as int),
            trim_end(s@.subrange(i as int, j as int)) == trim_end(trim_start(s@)),
        decreases j,
    {
        assert(s@.subrange(i as int, j as int).drop_last() =~= s@.subrange(i as int, j - 1));
        j = j - 1;
    }
    slice_chars(s, i, j)
}

/// The text up to, not including, the first `c`.
pub fn cut_chars(s: &Vec<char>, c: char) -> (r: Vec<char>)
    ensures
        r@ == cut_at(s@, c),
{
    let n = s.len();
    let mut i: usize = 0;
    assert(s@.subrange(0, 0) + cut_at(s@.subrange(0, n as int), c) =~= cut_at(s@, c)) by {
        assert(s@.subrange(0, n as int) =~= s@);
    }
    while i < n && s[i] != c
        invariant
            n == s@.len(),
            i <= n,
            s@.subrange(0, i as int) + cut_at(s@.subrange(i as int, n as int), c) == cut_at(s@, c),
        decreases n - i,
    {
        assert(s@.subrange(i as int, n as int).drop_first() =~= s@.subrange(i + 1, n as int));
        assert(s@.subrange(0, i + 1) =~= s@.subrange(0, i as int) + seq![s@[i as int]]);
        assert(s@.subrange(0, i as int) + (seq![s@[i as int]] + cut_at(s@.subrange(i + 1, n as int), c))
            =~= s@.subrange(0, i + 1) + cut_at(s@.subrange(i + 1, n as int), c));
        i = i + 1;
    }
    assert(s@.subrange(0, i as int) + Seq::<char>::empty() =~= s@.subrange(0, i as int));
    slice_chars(s, 0, i)
}

/// The text with every `c` deleted.
pub fn remove_chars(s: &Vec<char>, c: char) -> (r: Vec<char>)
    ensures
        r@ == remove_char(s@, c),
{
    let n = s.len();
    let mut r: Vec<char> = Vec::new();
    let mut i: usize = 0;
    assert(s@.subrange(0, n as int) =~= s@);
    while i < n
        invariant
            n == s@.len(),
            i <= n,
            r@ + remove_char(s@.subrange(i as int, n as int), c) == remove_char(s@, c),
        decreases n - i,
    {
        let ghost rest = s@.subrange(i as int, n as int);
        assert(rest.drop_first() =~= s@.subrange(i + 1, n as int));
        if s[i] != c {
            let ghost before = r@;
            r.push(s[i]);
            assert(before + (seq![s@[i as int]] + remove_char(rest.drop_first(), c)) =~= r@
                + remove_char(rest.drop_first(), c));
        }
        i = i + 1;
    }
    assert(r@ + Seq::<char>::empty() =~= r@);
    r
}

/// True where `pat` occurs in `s` at `i`.
fn occurs_at(s: &Vec<char>, i: usize, pat: &str) -> (r: bool)
    requires
        i <= s@.len(),
    ensures
        r == (pat@.len() <= s@.len() - i && s@.subrange(i as int, i + pat@.len()) == pat@),
{
    let m = pat.unicode_len();
    let sl = s.len();
    if m > sl - i {
        return false;
    }
    let mut k: usize = 0;
    while k < m
        invariant
            m == pat@.len(),
            m <= s@.len() - i,
            i + m <= sl,
            sl == s@.len(),
            k <= m,
            forall|j: int| 0 <= j < k ==> s@[i + j] == pat@[j],
        decreases m - k,
    {
        if s[i + k] != pat.get_char(k) {
            assert(s@.subrange(i as int, i + m)[k as int] != pat@[k as int]);
            return false;
        }
        k = k + 1;
    }
    assert(s@.subrange(i as int, i + m) =~= pat@);
    true
}

/// The text with each occurrence of `pat`, scanned left to right without
/// overlap, replaced by `rep`.
pub fn replace_chars(s: &Vec<char>, pat: &str, rep: &str) -> (r: Vec<char>)
    requires
        pat@.len() > 0,
    ensures
        r@ == replace_all(s@, pat@, rep@),
{
    let n = s.len();
    let m = pat.unicode_len();
    let rep_chars = chars_of(rep);
    let mut r: Vec<char> = Vec::new();
    let mut i: usize = 0;
    assert(s@.subrange(0, n as int) =~= s@);
    while i < n
        invariant
            n == s@.len(),
            m == pat@.len(),
            m > 0,
            rep_chars@ == rep@,
            i <= n,
            r@ + replace_all(s@.subrange(i as int, n as int), pat@, rep@) == replace_all(s@, pat@, rep@),
        decreases n - i,
    {
        let ghost rest = s@.subrange(i as int, n as int);
        let ghost before = r@;
        if occurs_at(s, i, pat) {
            assert(rest.subrange(0, m as int) =~= s@.subrange(i as int, i + m));
            assert(rest.subrange(m as int, rest.len() as int) =~= s@.subrange(i + m, n as int));
            let mut k: usize = 0;
            while k < rep_chars.len()
                invariant
                    k <= rep_chars@.len(),
                    r@ =~= before + rep_chars@.subrange(0, k as int),
                decreases rep_chars@.len() - k,
            {
                r.push(rep_chars[k]);
                k = k + 1;
            }
            assert(rep_chars@.subrange(0, k as int) =~= rep@);
            assert(before + (rep@ + replace_all(s@.subrange(i + m, n as int), pat@, rep@)) =~= r@
                + replace_all(s@.subrange(i + m, n as int), pat@, rep@));
            i = i + m;
        } else {
            assert(rest.drop_first() =~= s@.subrange(i + 1, n as int));
            assert(m <= rest.len() ==> rest.subrange(0, m as int) =~= s@.subrange(i as int, i + m));
            r.push(s[i]);
            assert(before + (seq![s@[i as int]] + replace_all(rest.drop_first(), pat@, rep@)) =~= r@
                + replace_all(rest.drop_first(), pat@, rep@));
            i = i + 1;
        }
    }
    assert(r@ + Seq::<char>::empty() =~= r@);
    r
}

/// Makes one source line ready for splitting into tokens.
pub fn preprocess(line: &Vec<char>) -> (r: Vec<char>)
    ensures
        r@ == preprocess_spec(line@),
{
    proof {
        reveal_strlit("jmp");
        reveal_strlit("JMP");
        reveal_strlit("ret");
        reveal_strlit("RET");
        reveal_strlit("OUT");
        reveal_strlit("IN");
        reveal_strlit("END");
    }
    let t = trim(line);
    let t = cut_chars(&t, ';');
    let t = remove_chars(&t, ',');
    let t = replace_chars(&t, "jmp", "set pc ");
    let t = replace_chars(&t, "JMP", "set pc ");
    let t = replace_chars(&t, "ret", "pop pc ");
    let t = replace_chars(&t, "RET", "pop pc ");
    let t = replace_chars(&t, "OUT", "0x8000");
    let t = replace_chars(&t, "IN", "0x8001");
    replace_chars(&t, "END", "0xffff")
}


/// Words of the text split at whitespace, `cur` being the word under way.
pub open spec fn split_acc(s: Seq<char>, cur: Seq<char>) -> Seq<Seq<char>>
    decreases s.len(),
{
    if s.len() == 0 {
        if cur.len() > 0 {
            seq![cur]
        } else {
            Seq::empty()
        }
    } else if is_ws(s[0]) {
        (if cur.len() > 0 {
            seq![cur]
        } else {
            Seq::empty()
        }) + split_acc(s.drop_first(), Seq::empty())
    } else {
        split_acc(s.drop_first(), cur.push(s[0]))
    }
}

/// The whitespace-separated words of a text, in order.
pub open spec fn split_ws(s: Seq<char>) -> Seq<Seq<char>> {
    split_acc(s, Seq::empty())
}

pub open spec fn is_dec_digit(c: char) -> bool {
    '0' <= c && c <= '9'
}

pub open spec fn is_hex_digit(c: char) -> bool {
    is_dec_digit(c) || ('a' <= c && c <= 'f') || ('A' <= c && c <= 'F')
}

pub open spec fn hex_digit_val(c: char) -> nat {
    if is_dec_digit(c) {
        (c as u32 - '0' as u32) as nat
    } else if 'a' <= c && c <= 'f' {
        (c as u32 - 'a' as u32 + 10) as nat
    } else {
        (c as u32 - 'A' as u32 + 10) as nat
    }
}

/// The value of the digits `s` in base `base`, held at 65536 once it
/// passes that.
pub open spec fn digits_capped(s: Seq<char>, base: nat) -> nat
    decreases s.len(),
{
    if s.len() == 0 {
        0
    } else {
        let v = base * digits_capped(s.drop_last(), base) + hex_digit_val(s.last());
        if v > 0x10000 {
            0x10000
        } else {
            v
        }
    }
}

/// Every character is a decimal digit.
pub open spec fn all_dec_digits(s: Seq<char>) -> bool {
    forall|i: int| 0 <= i < s.len() ==> is_dec_digit(#[trigger] s[i])
}

/// The digits of a decimal token: what follows its sign, if any.
pub open spec fn dec_body(t: Seq<char>) -> Seq<char> {
    if t.len() > 0 && (t[0] == '-' || t[0] == '+') {
        t.drop_first()
    } else {
        t
    }
}

/// A decimal number: an optional sign, then digits. Unsigned values up to
/// 65535 are taken as they are; negative values down to -32768 as their
/// two's complement.
pub open spec fn dec_value(t: Seq<char>) -> Option<u16> {
    let neg = t.len() > 0 && t[0] == '-';
    let body = dec_body(t);
    if body.len() == 0 || !all_dec_digits(body) {
        None
    } else {
        let v = digits_capped(body, 10);
        if !neg && v <= 0xFFFF {
            Some(v as u16)
        } else if neg && v <= 0x8000 {
            Some(((0x10000 - v) % 0x10000) as u16)
        } else {
            None
        }
    }
}

/// A hexadecimal number: `0x`, then hex digits, at most 0xFFFF.
pub open spec fn hex_value(t: Seq<char>) -> Option<u16> {
    let body = t.subrange(2, t.len() as int);
    if t.len() > 2 && t[0] == '0' && t[1] == 'x' && (forall|i: int|
        0 <= i < body.len() ==> is_hex_digit(#[trigger] body[i])) && digits_capped(body, 16) <= 0xFFFF {
        Some(digits_capped(body, 16) as u16)
    } else {
        None
    }
}

/// The value of a character escape `\c`.
pub open spec fn escape_value(c: char) -> u16 {
    match c {
        'a' => 0x07,
        'b' => 0x08,
        'n' => 0x0A,
        'r' => 0x0D,
        't' => 0x09,
        '\\' => 0x5C,
        '\'' => 0x27,
        '"' => 0x22,
        '?' => 0x3F,
        _ => 0,
    }
}

pub fn escape_char(chr: char) -> (r: u16)
    ensures
        r == escape_value(chr),
{
    match chr {
        'a' => 0x07,
        'b' => 0x08,
        'n' => 0x0A,
        'r' => 0x0D,
        't' => 0x09,
        '\\' => 0x5C,
        '\'' => 0x27,
        '"' => 0x22,
        '?' => 0x3F,
        _ => 0,
    }
}

/// The value of the digits `s[lo..]` in base `base`, held at 65536; `None`
/// where one of them is not a digit of that base.
fn parse_digits(s: &Vec<char>, lo: usize, base: u32) -> (r: Option<u32>)
    requires
        lo <= s@.len(),
        base == 10 || base == 16,
    ensures
        base == 10 ==> ((forall|i: int| lo <= i < s@.len() ==> is_dec_digit(#[trigger] s@[i])) <==> r is Some),
        base == 16 ==> ((forall|i: int| lo <= i < s@.len() ==> is_hex_digit(#[trigger] s@[i])) <==> r is Some),
        r matches Some(v) ==> v as nat == digits_capped(s@.subrange(lo as int, s@.len() as int), base as nat),
{
    let n = s.len();
    let mut acc: u32 = 0;
    let mut i: usize = lo;
    let ghost body = s@.subrange(lo as int, n as int);
    while i < n
        invariant
            n == s@.len(),
            lo <= i <= n,
            base == 10 || base == 16,
            body == s@.subrange(lo as int, n as int),
            acc == digits_capped(body.subrange(0, i - lo), base as nat),
            acc <= 0x10000,
            base == 10 ==> forall|k: int| lo <= k < i ==> is_dec_digit(#[trigger] s@[k]),
            base == 16 ==> forall|k: int| lo <= k < i ==> is_hex_digit(#[trigger] s@[k]),
        decreases n - i,
    {
        let c = s[i];
        let d: u32 = if '0' <= c && c <= '9' {
            c as u32 - '0' as u32
        } else if base == 16 && 'a' <= c && c <= 'f' {
            c as u32 - 'a' as u32 + 10
        } else if base == 16 && 'A' <= c && c <= 'F' {
            c as u32 - 'A' as u32 + 10
        } else {
            return None;
        };
        assert(body.subrange(0, i - lo + 1).drop_last() =~= body.subrange(0, i - lo));
        assert(body.subrange(0, i - lo + 1).last() == c);
        let v: u32 = base * acc + d;
        acc = if v > 0x10000 { 0x10000 } else { v };
        i = i + 1;
    }
    assert(body.subrange(0, n - lo) =~= body);
    Some(acc)
}

/// The value of a decimal token, as `dec_value` reads it.
fn parse_dec(t: &Vec<char>) -> (r: Option<u16>)
    ensures
        r == dec_value(t@),
{
    let n = t.len();
    let signed = n > 0 && (t[0] == '-' || t[0] == '+');
    let neg = n > 0 && t[0] == '-';
    let lo: usize = if signed { 1 } else { 0 };
    let ghost body = t@.subrange(lo as int, n as int);
    assert(body =~= dec_body(t@));
    if lo == n {
        return None;
    }
    assert(forall|i: int| 0 <= i < body.len() ==> body[i] == t@[i + lo]);
    match parse_digits(t, lo, 10) {
        None => {
            assert(!all_dec_digits(body)) by {
                let k = choose|k: int| lo <= k < n && !is_dec_digit(#[trigger] t@[k]);
                assert(body[k - lo] == t@[k]);
            }
            None
        },
        Some(v) => {
            assert(all_dec_digits(body)) by {
                assert forall|i: int| 0 <= i < body.len() implies is_dec_digit(#[trigger] body[i]) by {
                    assert(body[i] == t@[i + lo]);
                }
            }
            if !neg && v <= 0xFFFF {
                Some(v as u16)
            } else if neg && v <= 0x8000 {
                Some(((0x10000 - v) % 0x10000) as u16)
            } else {
                None
            }
        },
    }
}

/// The value of a `0x` hexadecimal token, as `hex_value` reads it.
fn parse_hex(t: &Vec<char>) -> (r: Option<u16>)
    ensures
        r == hex_value(t@),
{
    let n = t.len();
    if n <= 2 || t[0] != '0' || t[1] != 'x' {
        return None;
    }
    assert(forall|i: int| 0 <= i < n - 2 ==> t@.subrange(2, n as int)[i] == t@[i + 2]);
    let ghost body = t@.subrange(2, n as int);
    match parse_digits(t, 2, 16) {
        None => {
            assert(!(forall|i: int| 0 <= i < body.len() ==> is_hex_digit(#[trigger] body[i]))) by {
                let k = choose|k: int| 2 <= k < n && !is_hex_digit(#[trigger] t@[k]);
                assert(body[k - 2] == t@[k]);
            }
            None
        },
        Some(v) => if v <= 0xFFFF {
            assert forall|i: int| 0 <= i < body.len() implies is_hex_digit(#[trigger] body[i]) by {
                assert(body[i] == t@[i + 2]);
            }
            Some(v as u16)
        } else {
            None
        },
    }
}

/// A token of a source line.
#[derive(Clone, Debug, PartialEq)]
pub enum Token {
    Op(OpCode),
    Reg(RegMnem),
    Label(String, u16),
    Imm(u16),
}

/// A token as the parser reads it: registers by index, labels by their
/// characters.
pub ghost enum TokenView {
    Op(OpCode),
    Reg(u16),
    Label(Seq<char>, u16),
    Imm(u16),
}

impl View for Token {
    type V = TokenView;

    open spec fn view(&self) -> TokenView {
        match self {
            Token::Op(op) => TokenView::Op(*op),
            Token::Reg(m) => TokenView::Reg(m.index()),
            Token::Label(s, l) => TokenView::Label(s@, *l),
            Token::Imm(v) => TokenView::Imm(*v),
        }
    }
}

/// How the word `t` on line `line` reads as a token.
pub open spec fn token_spec(t: Seq<char>, line: u16) -> TokenView {
    if t.len() > 0 && (t[0] == '!' || t[0] == ':') {
        TokenView::Label(t, line)
    } else if t.len() == 3 && t[0] == '\'' {
        TokenView::Imm(((t[1] as u32) % 256) as u16)
    } else if t.len() == 4 && t[0] == '\'' && t[1] == '\\' {
        TokenView::Imm(escape_value(t[2]))
    } else if opcode_named(lower_seq(t)) is Some {
        TokenView::Op(opcode_named(lower_seq(t))->0)
    } else if reg_named(lower_seq(t)) is Some {
        TokenView::Reg(reg_named(lower_seq(t))->0)
    } else if dec_value(t) is Some {
        TokenView::Imm(dec_value(t)->0)
    } else if hex_value(t) is Some {
        TokenView::Imm(hex_value(t)->0)
    } else {
        TokenView::Imm(0)
    }
}

impl Token {
    /// Reads one whitespace-free word of line `linenum`.
    pub fn parse_str(tok: &str, linenum: u16) -> (r: Token)
        ensures
            r@ == token_spec(tok@, linenum),
    {
        let t = chars_of(tok);
        let n = t.len();
        if n > 0 && (t[0] == '!' || t[0] == ':') {
            return Token::Label(string_from_chars(&t), linenum);
        }
        if n == 3 && t[0] == '\'' {
            return Token::Imm(((t[1] as u32) % 256) as u16);
        }
        if n == 4 && t[0] == '\'' && t[1] == '\\' {
            return Token::Imm(escape_char(t[2]));
        }
        match OpCode::from_str(tok) {
            Ok(op) => {
                return Token::Op(op);
            },
            Err(_) => {},
        }
        match RegMnem::from_str(tok) {
            Ok(reg) => {
                return Token::Reg(reg);
            },
            Err(_) => {},
        }
        match parse_dec(&t) {
            Some(v) => {
                return Token::Imm(v);
            },
            None => {},
        }
        match parse_hex(&t) {
            Some(v) => Token::Imm(v),
            None => Token::Imm(0),
        }
    }

    /// True of an immediate.
    pub fn is_imm(&self) -> (r: bool)
        ensures
            r == (self@ is Imm),
    {
        match self {
            Token::Imm(_) => true,
            _ => false,
        }
    }

    /// A copy of the token.
    pub fn copy(&self) -> (r: Token)
        ensures
            r@ == self@,
    {
        match self {
            Token::Op(op) => Token::Op(*op),
            Token::Reg(m) => Token::Reg(*m),
            Token::Label(s, l) => Token::Label(s.clone(), *l),
            Token::Imm(v) => Token::Imm(*v),
        }
    }
}

/// The tokens of a preprocessed line, numbered `linenum`.
pub fn tokenize(line: &Vec<char>, linenum: u16) -> (r: Vec<Token>)
    ensures
        r@.len() == split_ws(line@).len(),
        forall|k: int| 0 <= k < r@.len() ==> #[trigger] r@[k]@ == token_spec(split_ws(line@)[k], linenum),
{
    let n = line.len();
    let mut toks: Vec<Token> = Vec::new();
    let mut cur: Vec<char> = Vec::new();
    let ghost done: Seq<Seq<char>> = Seq::empty();
    let mut i: usize = 0;
    assert(line@.subrange(0, n as int) =~= line@);
    assert(done + split_acc(line@, Seq::empty()) =~= split_ws(line@));
    while i < n
        invariant
            n == line@.len(),
            i <= n,
            done + split_acc(line@.subrange(i as int, n as int), cur@) == split_ws(line@),
            toks@.len() == done.len(),
            forall|k: int| 0 <= k < toks@.len() ==> #[trigger] toks@[k]@ == token_spec(done[k], linenum),
        decreases n - i,
    {
        let ghost rest = line@.subrange(i as int, n as int);
        assert(rest.drop_first() =~= line@.subrange(i + 1, n as int));
        let c = line[i];
        if is_ws_char(c) {
            if cur.len() > 0 {
                let word = string_from_chars(&cur);
                toks.push(Token::parse_str(word.as_str(), linenum));
                proof {
                    assert(done + (seq![cur@] + split_acc(rest.drop_first(), Seq::empty())) =~= done.push(cur@)
                        + split_acc(rest.drop_first(), Seq::empty()));
                    done = done.push(cur@);
                }
                cur = Vec::new();
            } else {
                assert(Seq::<Seq<char>>::empty() + split_acc(rest.drop_first(), Seq::empty())
                    =~= split_acc(rest.drop_first(), Seq::empty()));
                assert(cur@ =~= Seq::<char>::empty());
            }
        } else {
            cur.push(c);
        }
        i = i + 1;
    }
    if cur.len() > 0 {
        let word = string_from_chars(&cur);
        toks.push(Token::parse_str(word.as_str(), linenum));
        proof {
            done = done.push(cur@);
        }
    }
    assert(done =~= split_ws(line@));
    toks
}

} // verus!
