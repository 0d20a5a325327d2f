use vstd::prelude::*;

verus! {

/// Calls `String::push`: the string gets `c` at its end.
#[verifier::external_body]
pub(crate) fn push_char(s: &mut String, c: char)
    ensures
        final(s)@ == old(s)@.push(c),
{
    s.push(c)
}

/// The character of the decimal digit `v`.
pub open spec fn digit_char(v: int) -> char {
    (v + 48) as char
}

/// The decimal digits of `b`, without leading zeros.
pub open spec fn decimal_text(b: u8) -> Seq<char> {
    if b < 10 {
        seq![digit_char(b as int)]
    } else if b < 100 {
        seq![digit_char((b / 10) as int), digit_char((b % 10) as int)]
    } else {
        seq![digit_char((b / 100) as int), digit_char(((b / 10) % 10) as int), digit_char((b % 10) as int)]
    }
}

fn digit(v: u8) -> (c: char)
    requires
        v < 10,
    ensures
        c == digit_char(v as int),
{
    (v + 48) as char
}

/// Appends the decimal digits of `b` to `s`.
pub(crate) fn push_decimal(s: &mut String, b: u8)
    ensures
        final(s)@ == old(s)@ + decimal_text(b),
{
    if b < 10 {
        push_char(s, digit(b));
    } else if b < 100 {
        push_char(s, digit(b / 10));
        push_char(s, digit(b % 10));
    } else {
        push_char(s, digit(b / 100));
        push_char(s, digit((b / 10) % 10));
        push_char(s, digit(b % 10));
    }
    assert(final(s)@ =~= old(s)@ + decimal_text(b));
}

/// Whether `c` has the Unicode `White_Space` property.
pub open spec fn is_white_space(c: char) -> bool {
    let v = c as u32;
    ||| 0x09 <= v <= 0x0D
    ||| v == 0x20
    ||| v == 0x85
    ||| v == 0xA0
    ||| v == 0x1680
    ||| 0x2000 <= v <= 0x200A
    ||| v == 0x2028
    ||| v == 0x2029
    ||| v == 0x202F
    ||| v == 0x205F
    ||| v == 0x3000
}

/// Whether `c` has the Unicode `White_Space` property (as `char::is_whitespace` decides).
pub fn white_space(c: char) -> (r: bool)
    ensures
        r == is_white_space(c),
{
    let v = c as u32;
    (0x09 <= v && v <= 0x0D) || v == 0x20 || v == 0x85 || v == 0xA0 || v == 0x1680 || (0x2000 <= v
        && v <= 0x200A) || v == 0x2028 || v == 0x2029 || v == 0x202F || v == 0x205F || v == 0x3000
}

/// The number of words of `s`: maximal runs of characters that are not white space.
pub open spec fn word_count(s: Seq<char>) -> nat
    decreases s.len(),
{
    if s.len() == 0 {
        0
    } else {
        word_count(s.drop_last()) + if !is_white_space(s.last()) && (s.len() == 1 || is_white_space(
            s[s.len() - 2],
        )) {
            1nat
        } else {
            0nat
        }
    }
}

/// The number of words of `line`, as `split_whitespace` separates them.
pub fn count_words(line: &str) -> (n: usize)
    ensures
        n == word_count(line@),
{
    let len = line.unicode_len();
    let ghost chars = line@;
    let mut n: usize = 0;
    let mut previous_is_space = true;
    let mut i: usize = 0;
    for c in it: line.chars()
        invariant
            it.seq() == chars,
            chars.len() == len,
            i == it.index(),
            i <= chars.len(),
            n <= i,
            n == word_count(chars.take(i as int)),
            previous_is_space == (i == 0 || is_white_space(chars[i - 1])),
    {
        assert(chars.take(i + 1).drop_last() =~= chars.take(i as int));
        assert(chars.take(i + 1).last() == c);
        if i > 0 {
            assert(chars.take(i + 1)[i - 1] == chars[i - 1]);
        }
        let space = white_space(c);
        if !space && previous_is_space {
            n = n + 1;
        }
        previous_is_space = space;
        i = i + 1;
    }
    assert(chars.take(i as int) =~= chars);
    n
}

/// The sum over `lines` of their word counts, each taken modulo 2^32.
pub open spec fn lines_word_total(lines: Seq<String>) -> nat
    decreases lines.len(),
{
    if lines.len() == 0 {
        0
    } else {
        lines_word_total(lines.drop_last()) + word_count(lines.last()@) % 4294967296
    }
}

/// The number of words of a text given as its lines, counted in a `u32`: `None` when the
/// count overflows a `u32`. Each line's count is first truncated to 32 bits.
pub fn counter_words_in_lines(lines: &Vec<String>) -> (total: Option<u32>)
    ensures
        total matches Some(t) ==> t == lines_word_total(lines@),
        total is None <==> lines_word_total(lines@) > u32::MAX,
{
    let mut count: u32 = 0;
    let mut i: usize = 0;
    while i < lines.len()
        invariant
            i <= lines.len(),
            count == lines_word_total(lines@.take(i as int)),
        decreases lines.len() - i,
    {
        assert(lines@.take(i + 1).drop_last() =~= lines@.take(i as int));
        let words = count_words(lines[i].as_str());
        let part: u32 = ((words as u64) % 4294967296u64) as u32;
        match count.checked_add(part) {
            Some(c) => {
                count = c;
            },
            None => {
                proof {
                    lemma_total_grows(lines@, i as int + 1);
                }
                return None;
            },
        }
        i = i + 1;
    }
    assert(lines@.take(i as int) =~= lines@);
    Some(count)
}

proof fn lemma_total_grows(lines: Seq<String>, k: int)
    requires
        0 <= k <= lines.len(),
    ensures
        lines_word_total(lines.take(k)) <= lines_word_total(lines),
    decreases lines.len() - k,
{
    if k < lines.len() {
        lemma_total_grows(lines, k + 1);
        assert(lines.take(k + 1).drop_last() =~= lines.take(k));
    } else {
        assert(lines.take(k) =~= lines);
    }
}

/// The arguments joined into one text, separated by single spaces.
pub open spec fn joined_with_spaces(args: Seq<String>) -> Seq<char>
    decreases args.len(),
{
    if args.len() == 0 {
        Seq::empty()
    } else if args.len() == 1 {
        args[0]@
    } else {
        joined_with_spaces(args.drop_last()) + seq![' '] + args.last()@
    }
}

/// The characters trimmed from both ends of a path argument: quotes and spaces.
pub open spec fn is_trimmed_char(c: char) -> bool {
    c == '"' || c == '\'' || c == ' '
}

/// `s` without its leading trimmed characters.
pub open spec fn strip_front(s: Seq<char>) -> Seq<char>
    decreases s.len(),
{
    if s.len() > 0 && is_trimmed_char(s[0]) {
        strip_front(s.drop_first())
    } else {
        s
    }
}

/// `s` without its trailing trimmed characters.
pub open spec fn strip_back(s: Seq<char>) -> Seq<char>
    decreases s.len(),
{
    if s.len() > 0 && is_trimmed_char(s.last()) {
        strip_back(s.drop_last())
    } else {
        s
    }
}

/// `s` without the quotes and spaces at either end.
pub open spec fn trimmed(s: Seq<char>) -> Seq<char> {
    strip_back(strip_front(s))
}

proof fn lemma_strip_front(s: Seq<char>, a: int)
    requires
        0 <= a <= s.len(),
        forall|j: int| 0 <= j < a ==> is_trimmed_char(#[trigger] s[j]),
        a == s.len() || !is_trimmed_char(s[a]),
    ensures
        strip_front(s) == s.subrange(a, s.len() as int),
    decreases a,
{
    if a > 0 {
        assert forall|j: int| 0 <= j < a - 1 implies is_trimmed_char(#[trigger] s.drop_first()[j]) by {
            assert(s.drop_first()[j] == s[j + 1]);
        }
        if a < s.len() {
            assert(s.drop_first()[a - 1] == s[a]);
        }
        lemma_strip_front(s.drop_first(), a - 1);
        assert(s.drop_first().subrange(a - 1, s.len() - 1) =~= s.subrange(a, s.len() as int));
    } else {
        assert(s.subrange(0, s.len() as int) =~= s);
    }
}

proof fn lemma_strip_back(s: Seq<char>, b: int)
    requires
        0 <= b <= s.len(),
        forall|j: int| b <= j < s.len() ==> is_trimmed_char(#[trigger] s[j]),
        b == 0 || !is_trimmed_char(s[b - 1]),
    ensures
        strip_back(s) == s.subrange(0, b),
    decreases s.len() - b,
{
    if b < s.len() {
        assert forall|j: int| b <= j < s.len() - 1 implies is_trimmed_char(#[trigger] s.drop_last()[j]) by {
            assert(s.drop_last()[j] == s[j]);
        }
        if b > 0 {
            assert(s.drop_last()[b - 1] == s[b - 1]);
        }
        lemma_strip_back(s.drop_last(), b);
        assert(s.drop_last().subrange(0, b) =~= s.subrange(0, b));
    } else {
        assert(s.subrange(0, b) =~= s);
    }
}

/// The directory path given on the command line: the arguments joined with spaces, without the
/// quotes and spaces at either end. `None` when there is no argument.
pub fn normalize_path_argument(args: &Vec<String>) -> (path: Option<String>)
    ensures
        args@.len() == 0 ==> path is None,
        args@.len() > 0 ==> (path matches Some(p) && p@ == trimmed(joined_with_spaces(args@))),
{
    if args.len() == 0 {
        return None;
    }
    let mut chars: Vec<char> = Vec::new();
    let mut i: usize = 0;
    while i < args.len()
        invariant
            0 < args.len(),
            i <= args.len(),
            chars@ == joined_with_spaces(args@.take(i as int)),
        decreases args.len() - i,
    {
        assert(args@.take(i + 1).drop_last() =~= args@.take(i as int));
        let ghost base = chars@;
        if i > 0 {
            chars.push(' ');
        }
        let ghost base2 = chars@;
        let arg = args[i].as_str();
        let ghost a = arg@;
        let arg_len = arg.unicode_len();
        let mut m: usize = 0;
        for c in it: arg.chars()
            invariant
                it.seq() == a,
                m == it.index(),
                m <= a.len(),
                a.len() == arg_len,
                chars@ == base2 + a.take(m as int),
        {
            chars.push(c);
            assert(a.take(m + 1) =~= a.take(m as int).push(c));
            assert(chars@ =~= base2 + a.take(m + 1));
            m = m + 1;
        }
        assert(a.take(m as int) =~= a);
        if i == 0 {
            assert(chars@ =~= joined_with_spaces(args@.take(1)));
        } else {
            assert(chars@ =~= joined_with_spaces(args@.take(i + 1)));
        }
        i = i + 1;
    }
    assert(args@.take(i as int) =~= args@);
    let ghost s = chars@;
    let n = chars.len();
    let mut a: usize = 0;
    while a < n && (chars[a] == '"' || chars[a] == '\'' || chars[a] == ' ')
        invariant
            n == chars.len(),
            chars@ == s,
            a <= n,
            forall|j: int| 0 <= j < a ==> is_trimmed_char(#[trigger] s[j]),
        decreases n - a,
    {
        a = a + 1;
    }
    let mut b: usize = n;
    while b > a && (chars[b - 1] == '"' || chars[b - 1] == '\'' || chars[b - 1] == ' ')
        invariant
            n == chars.len(),
            chars@ == s,
            a <= b <= n,
            forall|j: int| b <= j < n ==> is_trimmed_char(#[trigger] s[j]),
        decreases b - a,
    {
        b = b - 1;
    }
    proof {
        lemma_strip_front(s, a as int);
        let f = s.subrange(a as int, n as int);
        assert forall|j: int| b - a <= j < f.len() implies is_trimmed_char(#[trigger] f[j]) by {
            assert(f[j] == s[a + j]);
        }
        if b > a {
            assert(f[b - a - 1] == s[b - 1]);
        }
        lemma_strip_back(f, (b - a) as int);
        assert(f.subrange(0, (b - a) as int) =~= s.subrange(a as int, b as int));
    }
    let mut out = String::new();
    let mut k: usize = a;
    while k < b
        invariant
            n == chars.len(),
            chars@ == s,
            a <= k <= b <= n,
            out@ == s.subrange(a as int, k as int),
        decreases b - k,
    {
        push_char(&mut out, chars[k]);
        assert(out@ =~= s.subrange(a as int, k + 1));
        k = k + 1;
    }
    Some(out)
}

/// Law: white space is only the Unicode `White_Space` characters: ASCII letters and digits,
/// the Cyrillic block and every character above U+3000 are not white space; the ASCII space,
/// tab, line feed and carriage return are.
pub proof fn law_white_space_characters(c: char)
    ensures
        (('a' <= c <= 'z') || ('A' <= c <= 'Z') || ('0' <= c <= '9') || (0x400 <= (c as u32) <= 0x4FF)
            || (c as u32) > 0x3000) ==> !is_white_space(c),
        (c == ' ' || c == '\t' || c == '\n' || c == '\r') ==> is_white_space(c),
{
}

proof fn lemma_no_space_one_word(s: Seq<char>)
    requires
        s.len() > 0,
        forall|i: int| 0 <= i < s.len() ==> !is_white_space(#[trigger] s[i]),
    ensures
        word_count(s) == 1,
    decreases s.len(),
{
    if s.len() > 1 {
        assert forall|i: int| 0 <= i < s.len() - 1 implies !is_white_space(#[trigger] s.drop_last()[i]) by {
            assert(s.drop_last()[i] == s[i]);
        }
        lemma_no_space_one_word(s.drop_last());
        assert(!is_white_space(s[s.len() - 2]));
        assert(!is_white_space(s[s.len() - 1]));
    } else {
        assert(s.drop_last().len() == 0);
        assert(word_count(s.drop_last()) == 0);
        assert(!is_white_space(s[0]));
        assert(s.last() == s[0]);
    }
}

proof fn lemma_word_count_concat(a: Seq<char>, c: char, b: Seq<char>)
    requires
        is_white_space(c),
    ensures
        word_count(a + seq![c] + b) == word_count(a) + word_count(b),
    decreases b.len(),
{
    if b.len() == 0 {
        assert((a + seq![c] + b).drop_last() =~= a);
        assert(a + seq![c] + b =~= a.push(c));
    } else {
        let t = a + seq![c] + b;
        assert(t.drop_last() =~= a + seq![c] + b.drop_last());
        lemma_word_count_concat(a, c, b.drop_last());
        assert(t.last() == b.last());
        if b.len() == 1 {
            assert(t[t.len() - 2] == c);
            assert(b.drop_last().len() == 0);
        } else {
            assert(t[t.len() - 2] == b[b.len() - 2]);
        }
    }
}

/// Law: a non-empty text without white space is one word, whatever characters it holds, and
/// joining two texts with a white-space character between them adds their word counts. So the
/// words are exactly the maximal runs of characters that are not white space.
pub proof fn law_words_are_runs_between_white_space(s: Seq<char>, a: Seq<char>, c: char, b: Seq<char>)
    ensures
        s.len() > 0 && (forall|i: int| 0 <= i < s.len() ==> !is_white_space(#[trigger] s[i])) ==> word_count(s) == 1,
        is_white_space(c) ==> word_count(a + seq![c] + b) == word_count(a) + word_count(b),
        word_count(Seq::<char>::empty()) == 0,
{
    if s.len() > 0 && (forall|i: int| 0 <= i < s.len() ==> !is_white_space(#[trigger] s[i])) {
        lemma_no_space_one_word(s);
    }
    if is_white_space(c) {
        lemma_word_count_concat(a, c, b);
    }
}

/// Law: the word total of lines adds up over the lines, each line's count taken modulo 2^32.
pub proof fn law_lines_word_total_adds(a: Seq<String>, b: Seq<String>, line: String)
    ensures
        lines_word_total(a + b) == lines_word_total(a) + lines_word_total(b),
        lines_word_total(Seq::<String>::empty()) == 0,
        lines_word_total(seq![line]) == word_count(line@) % 4294967296,
    decreases b.len(),
{
    assert(seq![line].drop_last() =~= Seq::<String>::empty());
    assert(lines_word_total(seq![line].drop_last()) == 0);
    assert(seq![line].last() == line);
    if b.len() > 0 {
        assert((a + b).drop_last() =~= a + b.drop_last());
        law_lines_word_total_adds(a, b.drop_last(), line);
    } else {
        assert(a + b =~= a);
    }
}

proof fn lemma_joined_concat(a: Seq<String>, b: Seq<String>)
    requires
        a.len() > 0,
        b.len() > 0,
    ensures
        joined_with_spaces(a + b) == joined_with_spaces(a) + seq![' '] + joined_with_spaces(b),
    decreases b.len(),
{
    let ab = a + b;
    assert(ab.drop_last() =~= a + b.drop_last());
    assert(ab.last() == b.last());
    if b.len() == 1 {
        assert(a + b.drop_last() =~= a);
    } else {
        lemma_joined_concat(a, b.drop_last());
        assert(joined_with_spaces(a) + seq![' '] + joined_with_spaces(b.drop_last()) + seq![' '] + b.last()@
            =~= joined_with_spaces(a) + seq![' '] + (joined_with_spaces(b.drop_last()) + seq![' '] + b.last()@));
    }
}

/// Law: one argument is kept as it is, and joining two non-empty argument lists one after the
/// other puts exactly one space between their joined texts; so `n` arguments are joined with
/// `n - 1` single spaces, one between each two neighbours.
pub proof fn law_arguments_joined_by_single_spaces(x: String, a: Seq<String>, b: Seq<String>)
    ensures
        joined_with_spaces(seq![x]) == x@,
        a.len() > 0 && b.len() > 0 ==> joined_with_spaces(a + b) == joined_with_spaces(a) + seq![' ']
            + joined_with_spaces(b),
{
    if a.len() > 0 && b.len() > 0 {
        lemma_joined_concat(a, b);
    }
}

/// Law: trimming removes exactly the quotes and spaces at either end. Where the text holds a
/// character that is neither, from its first such character `s[a]` to its last `s[b - 1]`, the
/// result is `s[a..b]`, with every inner quote and space kept; a text of quotes and spaces alone
/// becomes empty.
pub proof fn law_trim_removes_only_end_quotes_and_spaces(s: Seq<char>, a: int, b: int)
    ensures
        (0 <= a < b <= s.len() && !is_trimmed_char(s[a]) && !is_trimmed_char(s[b - 1]) && (forall|j: int|
            0 <= j < a ==> is_trimmed_char(#[trigger] s[j])) && (forall|j: int|
            b <= j < s.len() ==> is_trimmed_char(#[trigger] s[j]))) ==> trimmed(s) == s.subrange(a, b),
        (forall|j: int| 0 <= j < s.len() ==> is_trimmed_char(#[trigger] s[j])) ==> trimmed(s).len() == 0,
{
    if 0 <= a < b <= s.len() && !is_trimmed_char(s[a]) && !is_trimmed_char(s[b - 1]) && (forall|j: int|
        0 <= j < a ==> is_trimmed_char(#[trigger] s[j])) && (forall|j: int|
        b <= j < s.len() ==> is_trimmed_char(#[trigger] s[j])) {
        lemma_strip_front(s, a);
        let t = s.subrange(a, s.len() as int);
        assert forall|j: int| b - a <= j < t.len() implies is_trimmed_char(#[trigger] t[j]) by {
            assert(t[j] == s[j + a]);
        }
        assert(t[b - a - 1] == s[b - 1]);
        lemma_strip_back(t, b - a);
        assert(t.subrange(0, b - a) =~= s.subrange(a, b));
    }
    if forall|j: int| 0 <= j < s.len() ==> is_trimmed_char(#[trigger] s[j]) {
        lemma_strip_front(s, s.len() as int);
        assert(strip_front(s).len() == 0);
    }
}

} // verus!
