//! The instruction parser: source text in, instructions out.
use crate::op_code::{LabelOpCode, OpCode, SegmentOpCode};
use crate::text::{chars_of, str_equal};
use vstd::prelude::*;
use vstd::string::*;

verus! {

pub open spec fn is_ws(c: char) -> bool {
    c == ' ' || c == '\t' || c == '\n' || c == '\r' || c == '\x0B' || c == '\x0C'
}

/// The first index from `i` on that holds no whitespace (or the length).
pub open spec fn skip_ws(s: Seq<char>, i: int) -> int
    decreases s.len() - i,
{
    if 0 <= i < s.len() && is_ws(s[i]) {
        skip_ws(s, i + 1)
    } else {
        i
    }
}

/// The end of `s[lo..j]` once trailing whitespace is removed.
pub open spec fn back_ws(s: Seq<char>, lo: int, j: int) -> int
    decreases j - lo,
{
    if lo < j && is_ws(s[j - 1]) {
        back_ws(s, lo, j - 1)
    } else {
        j
    }
}

/// `s` without leading and trailing whitespace.
pub open spec fn trim(s: Seq<char>) -> Seq<char> {
    let a = skip_ws(s, 0);
    s.subrange(a, back_ws(s, a, s.len() as int))
}

/// The first index from `i` on that holds `c` (or the length).
pub open spec fn find(s: Seq<char>, c: char, i: int) -> int
    decreases s.len() - i,
{
    if i < s.len() {
        if s[i] == c {
            i
        } else {
            find(s, c, i + 1)
        }
    } else {
        s.len() as int
    }
}

/// The instruction text of a source line: trimmed, cut at the first `/`,
/// trimmed again.
pub open spec fn instruction(line: Seq<char>) -> Seq<char> {
    let t = trim(line);
    trim(t.subrange(0, find(t, '/', 0)))
}

/// The lines of `s[start..]`, scanning from `i`: each ends at a newline,
/// and a last line without one counts when it is not empty.
pub open spec fn lines_from(s: Seq<char>, start: int, i: int) -> Seq<Seq<char>>
    decreases s.len() - i,
{
    if i >= s.len() {
        if start < s.len() {
            seq![s.subrange(start, s.len() as int)]
        } else {
            Seq::empty()
        }
    } else if s[i] == '\n' {
        seq![s.subrange(start, i)] + lines_from(s, i + 1, i + 1)
    } else {
        lines_from(s, start, i + 1)
    }
}

/// The non-empty instruction texts of `lines`, in order.
pub open spec fn texts(lines: Seq<Seq<char>>) -> Seq<Seq<char>>
    decreases lines.len(),
{
    if lines.len() == 0 {
        Seq::empty()
    } else {
        texts(lines.drop_last()) + line_texts(lines.last())
    }
}

/// The instruction text of `line`, if it is not empty.
pub open spec fn line_texts(line: Seq<char>) -> Seq<Seq<char>> {
    if instruction(line).len() == 0 {
        Seq::empty()
    } else {
        seq![instruction(line)]
    }
}

/// The instruction texts of a source.
pub open spec fn program(s: Seq<char>) -> Seq<Seq<char>> {
    texts(lines_from(s, 0, 0))
}

pub open spec fn starts(t: Seq<char>, w: Seq<char>) -> bool {
    t.len() >= w.len() && t.subrange(0, w.len() as int) == w
}

/// Which form an instruction text has, by its leading word: 0 push, 1 pop,
/// 2 label, 3 goto, 4 if-goto, 5 call, 6 function, 7 a bare word.
pub open spec fn kind(t: Seq<char>) -> nat {
    if starts(t, "push"@) {
        0
    } else if starts(t, "pop"@) {
        1
    } else if starts(t, "label"@) {
        2
    } else if starts(t, "goto"@) {
        3
    } else if starts(t, "if-goto"@) {
        4
    } else if starts(t, "call"@) {
        5
    } else if starts(t, "function"@) {
        6
    } else {
        7
    }
}

pub open spec fn space1(t: Seq<char>) -> int {
    find(t, ' ', 0)
}

pub open spec fn space2(t: Seq<char>) -> int {
    find(t, ' ', space1(t) + 1)
}

/// The text between the first and the second space.
pub open spec fn field1(t: Seq<char>) -> Seq<char> {
    t.subrange(space1(t) + 1, space2(t))
}

/// The text after the second space.
pub open spec fn field2(t: Seq<char>) -> Seq<char> {
    t.subrange(space2(t) + 1, t.len() as int)
}

/// The text after the first space.
pub open spec fn operand(t: Seq<char>) -> Seq<char> {
    t.subrange(space1(t) + 1, t.len() as int)
}

pub open spec fn is_digit(c: char) -> bool {
    '0' <= c <= '9'
}

pub open spec fn digits_value(d: Seq<char>) -> nat
    decreases d.len(),
{
    if d.len() == 0 {
        0
    } else {
        digits_value(d.drop_last()) * 10 + (d.last() as nat - '0' as nat) as nat
    }
}

/// The digits of an unsigned number, after an optional `+`.
pub open spec fn unsigned_digits(d: Seq<char>) -> Seq<char> {
    if d.len() > 0 && d[0] == '+' {
        d.drop_first()
    } else {
        d
    }
}

/// `d` is an unsigned decimal number below `limit`.
pub open spec fn is_number(d: Seq<char>, limit: nat) -> bool {
    let b = unsigned_digits(d);
    &&& b.len() > 0
    &&& forall|i: int| 0 <= i < b.len() ==> is_digit(#[trigger] b[i])
    &&& digits_value(b) < limit
}

pub open spec fn number_value(d: Seq<char>) -> nat {
    digits_value(unsigned_digits(d))
}

/// Whether an instruction text is well formed.
pub open spec fn valid(t: Seq<char>) -> bool {
    let k = kind(t);
    if k == 0 || k == 1 {
        space2(t) < t.len() && is_number(field2(t), 0x1_0000_0000)
    } else if k == 2 || k == 3 || k == 4 {
        space1(t) < t.len()
    } else if k == 5 || k == 6 {
        space2(t) < t.len() && is_number(field2(t), 0x100)
    } else {
        t == "add"@ || t == "sub"@ || t == "neg"@ || t == "eq"@ || t == "gt"@ || t == "lt"@
            || t == "and"@ || t == "or"@ || t == "not"@ || t == "return"@
    }
}

/// `op` is the instruction that the text `t` stands for.
pub open spec fn denotes(op: OpCode, t: Seq<char>) -> bool {
    &&& valid(t)
    &&& match op {
        OpCode::Push(s) => kind(t) == 0 && s.segment@ == field1(t) && s.offset == number_value(
            field2(t),
        ),
        OpCode::Pop(s) => kind(t) == 1 && s.segment@ == field1(t) && s.offset == number_value(
            field2(t),
        ),
        OpCode::Label(l) => kind(t) == 2 && l.label@ == operand(t),
        OpCode::Goto(l) => kind(t) == 3 && l.label@ == operand(t),
        OpCode::If(l) => kind(t) == 4 && l.label@ == operand(t),
        OpCode::Call { func_name, num_args } => kind(t) == 5 && func_name@ == field1(t)
            && num_args == number_value(field2(t)),
        OpCode::Function { func_name, num_locals } => kind(t) == 6 && func_name@ == field1(t)
            && num_locals == number_value(field2(t)),
        OpCode::Add => kind(t) == 7 && t == "add"@,
        OpCode::Sub => kind(t) == 7 && t == "sub"@,
        OpCode::Neg => kind(t) == 7 && t == "neg"@,
        OpCode::Eq => kind(t) == 7 && t == "eq"@,
        OpCode::Gt => kind(t) == 7 && t == "gt"@,
        OpCode::Lt => kind(t) == 7 && t == "lt"@,
        OpCode::And => kind(t) == 7 && t == "and"@,
        OpCode::Or => kind(t) == 7 && t == "or"@,
        OpCode::Not => kind(t) == 7 && t == "not"@,
        OpCode::Return => kind(t) == 7 && t == "return"@,
    }
}

/// The character at `k`; `ascii` says that `s` is known to be ASCII, which
/// makes the access direct.
fn char_at(s: &str, ascii: bool, k: usize) -> (c: char)
    requires
        ascii ==> s.is_ascii(),
        k < s@.len(),
    ensures
        c == s@[k as int],
{
    if ascii {
        let b = s.get_ascii(k);
        proof {
            assert('\0' <= s@[k as int] <= '\u{7f}');
        }
        b as char
    } else {
        s.get_char(k)
    }
}

/// The characters `a .. b` of `s`.
fn slice<'a>(s: &'a str, ascii: bool, a: usize, b: usize) -> (r: &'a str)
    requires
        ascii ==> s.is_ascii(),
        a <= b <= s@.len(),
    ensures
        r@ == s@.subrange(a as int, b as int),
        ascii ==> r.is_ascii(),
{
    if ascii {
        s.substring_ascii(a, b)
    } else {
        s.substring_char(a, b)
    }
}

fn is_ws_char(c: char) -> (r: bool)
    ensures
        r == is_ws(c),
{
    c == ' ' || c == '\t' || c == '\n' || c == '\r' || c == '\x0B' || c == '\x0C'
}

fn find_char(s: &str, ascii: bool, c: char, from: usize) -> (r: usize)
    requires
        ascii ==> s.is_ascii(),
        from <= s@.len(),
    ensures
        r as int == find(s@, c, from as int),
        from <= r <= s@.len(),
{
    let n = s.unicode_len();
    let mut i = from;
    while i < n
        invariant
            n == s@.len(),
            from <= i <= n,
            ascii ==> s.is_ascii(),
            find(s@, c, i as int) == find(s@, c, from as int),
        decreases n - i,
    {
        if char_at(s, ascii, i) == c {
            return i;
        }
        i = i + 1;
    }
    i
}

fn trim_ws<'a>(s: &'a str, ascii: bool) -> (r: &'a str)
    requires
        ascii ==> s.is_ascii(),
    ensures
        r@ == trim(s@),
        ascii ==> r.is_ascii(),
{
    let n = s.unicode_len();
    let mut a: usize = 0;
    while a < n && is_ws_char(char_at(s, ascii, a))
        invariant
            n == s@.len(),
            a <= n,
            ascii ==> s.is_ascii(),
            skip_ws(s@, a as int) == skip_ws(s@, 0),
        decreases n - a,
    {
        a = a + 1;
    }
    let mut b: usize = n;
    while b > a && is_ws_char(char_at(s, ascii, b - 1))
        invariant
            n == s@.len(),
            a <= b <= n,
            ascii ==> s.is_ascii(),
            skip_ws(s@, 0) == a,
            back_ws(s@, a as int, b as int) == back_ws(s@, a as int, n as int),
        decreases b - a,
    {
        b = b - 1;
    }
    slice(s, ascii, a, b)
}

fn instruction_text<'a>(line: &'a str, ascii: bool) -> (r: &'a str)
    requires
        ascii ==> line.is_ascii(),
    ensures
        r@ == instruction(line@),
        ascii ==> r.is_ascii(),
{
    let t = trim_ws(line, ascii);
    let cut = find_char(t, ascii, '/', 0);
    trim_ws(slice(t, ascii, 0, cut), ascii)
}

fn starts_with_word(t: &str, ascii: bool, w: &str) -> (r: bool)
    requires
        ascii ==> t.is_ascii(),
    ensures
        r == starts(t@, w@),
{
    let m = w.unicode_len();
    if m > t.unicode_len() {
        false
    } else {
        str_equal(slice(t, ascii, 0, m), w)
    }
}

fn parse_number(d: &str, ascii: bool, limit: u64) -> (r: Option<u64>)
    requires
        ascii ==> d.is_ascii(),
        limit <= 0x1_0000_0000,
    ensures
        r is Some <==> is_number(d@, limit as nat),
        r is Some ==> r->0 as nat == number_value(d@),
{
    let n = d.unicode_len();
    let mut i: usize = 0;
    if n > 0 && char_at(d, ascii, 0) == '+' {
        i = 1;
    }
    let start = i;
    let ghost b = unsigned_digits(d@);
    assert(b =~= d@.subrange(start as int, n as int));
    if start == n {
        return None;
    }
    let mut acc: u64 = 0;
    while i < n
        invariant
            n == d@.len(),
            start <= i <= n,
            start < n,
            ascii ==> d.is_ascii(),
            limit <= 0x1_0000_0000,
            b == d@.subrange(start as int, n as int),
            b == unsigned_digits(d@),
            forall|j: int| 0 <= j < i - start ==> is_digit(#[trigger] b[j]),
            acc as nat == (if digits_value(b.take(i - start)) < limit {
                digits_value(b.take(i - start))
            } else {
                limit as nat
            }),
        decreases n - i,
    {
        let c = char_at(d, ascii, i);
        if !('0' <= c && c <= '9') {
            assert(b[i - start] == c);
            assert(!is_digit(b[i - start]));
            assert(!is_number(d@, limit as nat));
            return None;
        }
        let digit = (c as u32 - '0' as u32) as u64;
        proof {
            assert(b.take(i - start + 1).drop_last() =~= b.take(i - start));
            assert(b.take(i - start + 1).last() == c);
        }
        if acc < limit {
            let next = acc * 10 + digit;
            acc = if next < limit {
                next
            } else {
                limit
            };
        }
        i = i + 1;
    }
    assert(b.take(n - start) =~= b);
    if acc < limit {
        Some(acc)
    } else {
        None
    }
}

fn kind_of(t: &str, ascii: bool) -> (r: u8)
    requires
        ascii ==> t.is_ascii(),
    ensures
        r as nat == kind(t@),
{
    if starts_with_word(t, ascii, "push") {
        0
    } else if starts_with_word(t, ascii, "pop") {
        1
    } else if starts_with_word(t, ascii, "label") {
        2
    } else if starts_with_word(t, ascii, "goto") {
        3
    } else if starts_with_word(t, ascii, "if-goto") {
        4
    } else if starts_with_word(t, ascii, "call") {
        5
    } else if starts_with_word(t, ascii, "function") {
        6
    } else {
        7
    }
}

fn bare_word<'a>(t: &'a str) -> (r: Option<OpCode<'a>>)
    ensures
        r is Some <==> (t@ == "add"@ || t@ == "sub"@ || t@ == "neg"@ || t@ == "eq"@ || t@
            == "gt"@ || t@ == "lt"@ || t@ == "and"@ || t@ == "or"@ || t@ == "not"@ || t@
            == "return"@),
        r matches Some(op) ==> match op {
            OpCode::Add => t@ == "add"@,
            OpCode::Sub => t@ == "sub"@,
            OpCode::Neg => t@ == "neg"@,
            OpCode::Eq => t@ == "eq"@,
            OpCode::Gt => t@ == "gt"@,
            OpCode::Lt => t@ == "lt"@,
            OpCode::And => t@ == "and"@,
            OpCode::Or => t@ == "or"@,
            OpCode::Not => t@ == "not"@,
            OpCode::Return => t@ == "return"@,
            _ => false,
        },
{
    if str_equal(t, "add") {
        Some(OpCode::Add)
    } else if str_equal(t, "sub") {
        Some(OpCode::Sub)
    } else if str_equal(t, "neg") {
        Some(OpCode::Neg)
    } else if str_equal(t, "eq") {
        Some(OpCode::Eq)
    } else if str_equal(t, "gt") {
        Some(OpCode::Gt)
    } else if str_equal(t, "lt") {
        Some(OpCode::Lt)
    } else if str_equal(t, "and") {
        Some(OpCode::And)
    } else if str_equal(t, "or") {
        Some(OpCode::Or)
    } else if str_equal(t, "not") {
        Some(OpCode::Not)
    } else if str_equal(t, "return") {
        Some(OpCode::Return)
    } else {
        None
    }
}

/// The instruction that a non-empty instruction text stands for, if it is
/// well formed.
pub fn parse_instruction<'a>(t: &'a str) -> (r: Option<OpCode<'a>>)
    ensures
        r is Some <==> valid(t@),
        r matches Some(op) ==> denotes(op, t@),
{
    let ascii = t.is_ascii();
    let n = t.unicode_len();
    let k = kind_of(t, ascii);
    let s1 = find_char(t, ascii, ' ', 0);
    if k == 7 {
        return bare_word(t);
    }
    if s1 == n {
        return None;
    }
    if k == 2 || k == 3 || k == 4 {
        let l = LabelOpCode { label: slice(t, ascii, s1 + 1, n) };
        return if k == 2 {
            Some(OpCode::Label(l))
        } else if k == 3 {
            Some(OpCode::Goto(l))
        } else {
            Some(OpCode::If(l))
        };
    }
    let s2 = find_char(t, ascii, ' ', s1 + 1);
    if s2 == n {
        return None;
    }
    let name = slice(t, ascii, s1 + 1, s2);
    let digits = slice(t, ascii, s2 + 1, n);
    if k == 0 || k == 1 {
        match parse_number(digits, ascii, 0x1_0000_0000) {
            None => None,
            Some(v) => {
                let op = SegmentOpCode { segment: name, offset: v as u32 };
                if k == 0 {
                    Some(OpCode::Push(op))
                } else {
                    Some(OpCode::Pop(op))
                }
            },
        }
    } else {
        match parse_number(digits, ascii, 0x100) {
            None => None,
            Some(v) => {
                if k == 5 {
                    Some(OpCode::Call { func_name: name, num_args: v as u8 })
                } else {
                    Some(OpCode::Function { func_name: name, num_locals: v as u8 })
                }
            },
        }
    }
}

/// Why a source could not be parsed.
pub enum ParseError {
    /// The first instruction text that is not well formed.
    Invalid(String),
}

/// `texts` distributes over concatenation.
proof fn lemma_texts_append(a: Seq<Seq<char>>, b: Seq<Seq<char>>)
    ensures
        texts(a + b) == texts(a) + texts(b),
    decreases b.len(),
{
    if b.len() == 0 {
        assert(a + b =~= a);
        assert(texts(a) + texts(b) =~= texts(a));
    } else {
        lemma_texts_append(a, b.drop_last());
        assert((a + b).drop_last() =~= a + b.drop_last());
        assert((a + b).last() == b.last());
        assert(texts(a + b) =~= texts(a) + texts(b));
    }
}

/// The texts of the lines before, of one line, and of the lines after.
proof fn lemma_texts_split(done: Seq<Seq<char>>, line: Seq<char>, rest: Seq<Seq<char>>)
    ensures
        texts(done.push(line) + rest) == texts(done) + line_texts(line) + texts(rest),
{
    lemma_texts_append(done.push(line), rest);
    assert(done.push(line).drop_last() =~= done);
}

/// Parses the instruction text of `line` onto `instructions`; hands back the
/// text when it is malformed.
fn take_line<'a>(line: &'a str, ascii: bool, instructions: &mut Vec<OpCode<'a>>) -> (r: Option<&'a str>)
    requires
        ascii ==> line.is_ascii(),
    ensures
        r matches Some(t) ==> line_texts(line@) == seq![t@] && !valid(t@),
        r is None ==> forall|k: int|
            0 <= k < line_texts(line@).len() ==> valid(#[trigger] line_texts(line@)[k]),
        r is None ==> final(instructions)@.len() == old(instructions)@.len() + line_texts(
            line@,
        ).len(),
        r is None ==> forall|k: int|
            0 <= k < line_texts(line@).len() ==> denotes(
                #[trigger] final(instructions)@[old(instructions)@.len() + k],
                line_texts(line@)[k],
            ),
        forall|k: int|
            0 <= k < old(instructions)@.len() ==> final(instructions)@[k] == old(
                instructions,
            )@[k],
{
    let t = instruction_text(line, ascii);
    if t.unicode_len() == 0 {
        return None;
    }
    match parse_instruction(t) {
        Some(op) => {
            instructions.push(op);
            None
        },
        None => Some(t),
    }
}

/// A source text, parsed on demand.
pub struct Parser {
    content: String,
}

impl Parser {
    /// The source text.
    pub closed spec fn text(&self) -> Seq<char> {
        self.content@
    }

    pub fn new(content: String) -> (r: Self)
        ensures
            r.text() == content@,
    {
        Parser { content }
    }

    /// The instructions of the source, one per non-empty instruction text.
    /// Fails exactly when some instruction text is malformed, naming the
    /// first such text.
    pub fn parse(&self) -> (r: Result<Vec<OpCode<'_>>, ParseError>)
        ensures
            r is Ok <==> forall|k: int|
                0 <= k < program(self.text()).len() ==> valid(#[trigger] program(self.text())[k]),
            r matches Ok(v) ==> v@.len() == program(self.text()).len() && forall|k: int|
                0 <= k < v@.len() ==> denotes(#[trigger] v@[k], program(self.text())[k]),
            r matches Err(ParseError::Invalid(e)) ==> exists|k: int|
                0 <= k < program(self.text()).len() && e@ == #[trigger] program(self.text())[k]
                    && !valid(program(self.text())[k]) && forall|j: int|
                    0 <= j < k ==> valid(#[trigger] program(self.text())[j]),
    {
        let s = self.content.as_str();
        let ascii = s.is_ascii();
        let cs = chars_of(s);
        let ghost text = s@;
        let ghost all = lines_from(text, 0, 0);
        let n = s.unicode_len();
        let mut instructions: Vec<OpCode<'_>> = Vec::new();
        let mut start: usize = 0;
        let mut i: usize = 0;
        let ghost mut done: Seq<Seq<char>> = Seq::empty();
        assert(all == done + lines_from(text, 0, 0));
        while i < n
            invariant
                text == s@,
                text == self.text(),
                all == lines_from(text, 0, 0),
                ascii ==> s.is_ascii(),
                cs@ == text,
                n == text.len(),
                start <= i <= n,
                all == done + lines_from(text, start as int, i as int),
                instructions@.len() == texts(done).len(),
                forall|k: int|
                    0 <= k < instructions@.len() ==> denotes(
                        #[trigger] instructions@[k],
                        texts(done)[k],
                    ),
                forall|k: int| 0 <= k < texts(done).len() ==> valid(#[trigger] texts(done)[k]),
            decreases n - i,
        {
            if cs[i] == '\n' {
                let line = slice(s, ascii, start, i);
                let ghost rest = lines_from(text, i + 1, i + 1);
                assert(all =~= done.push(line@) + rest);
                proof {
                    lemma_texts_split(done, line@, rest);
                }
                let ghost before = instructions@;
                let line_ascii = ascii || line.is_ascii();
                match take_line(line, line_ascii, &mut instructions) {
                    Some(t) => {
                        proof {
                            let k = texts(done).len() as int;
                            assert(program(text)[k] == t@);
                            assert forall|j: int| 0 <= j < k implies valid(
                                #[trigger] program(text)[j],
                            ) by {
                                assert(program(text)[j] == texts(done)[j]);
                            }
                        }
                        return Err(ParseError::Invalid(String::from_str(t)));
                    },
                    None => {},
                }
                proof {
                    assert(done.push(line@).drop_last() =~= done);
                    let d2 = done.push(line@);
                    assert(texts(d2) == texts(done) + line_texts(line@));
                    assert forall|k: int| 0 <= k < instructions@.len() implies denotes(
                        #[trigger] instructions@[k],
                        texts(d2)[k],
                    ) by {
                        if k < before.len() {
                            assert(instructions@[k] == before[k]);
                        } else {
                            assert(instructions@[before.len() + (k - before.len())]
                                == instructions@[k]);
                        }
                    }
                    assert forall|k: int| 0 <= k < texts(d2).len() implies valid(
                        #[trigger] texts(d2)[k],
                    ) by {
                        if k >= texts(done).len() {
                            assert(texts(d2)[k] == line_texts(line@)[k - texts(done).len()]);
                        }
                    }
                    done = d2;
                }
                start = i + 1;
            }
            i = i + 1;
        }
        if start < n {
            let line = slice(s, ascii, start, n);
            assert(all =~= done.push(line@) + Seq::<Seq<char>>::empty());
            proof {
                lemma_texts_split(done, line@, Seq::empty());
            }
            let ghost before = instructions@;
            let line_ascii = ascii || line.is_ascii();
            match take_line(line, line_ascii, &mut instructions) {
                Some(t) => {
                    proof {
                        let k = texts(done).len() as int;
                        assert(program(text)[k] == t@);
                        assert forall|j: int| 0 <= j < k implies valid(
                            #[trigger] program(text)[j],
                        ) by {
                            assert(program(text)[j] == texts(done)[j]);
                        }
                    }
                    return Err(ParseError::Invalid(String::from_str(t)));
                },
                None => {},
            }
            proof {
                assert(done.push(line@).drop_last() =~= done);
                let d2 = done.push(line@);
                assert(texts(d2) == texts(done) + line_texts(line@));
                assert forall|k: int| 0 <= k < instructions@.len() implies denotes(
                    #[trigger] instructions@[k],
                    texts(d2)[k],
                ) by {
                    if k < before.len() {
                        assert(instructions@[k] == before[k]);
                    } else {
                        assert(instructions@[before.len() + (k - before.len())]
                            == instructions@[k]);
                    }
                }
                assert forall|k: int| 0 <= k < texts(d2).len() implies valid(
                    #[trigger] texts(d2)[k],
                ) by {
                    if k >= texts(done).len() {
                        assert(texts(d2)[k] == line_texts(line@)[k - texts(done).len()]);
                    }
                }
                done = d2;
                assert(all =~= done);
            }
        } else {
            assert(all =~= done);
        }
        Ok(instructions)
    }
}

} // verus!
