//! The command line's side: turning the words of an input line into a
//! request for the server.
use crate::wire::{add_field, ascii, field, literal};
use vstd::prelude::*;
use vstd::string::StringExecFns;
use vstd::utf8::encode_utf8;

verus! {

/// A decimal digit.
pub open spec fn is_digit(c: char) -> bool {
    '0' <= c && c <= '9'
}

/// The number that a string of decimal digits spells.
pub open spec fn digits_value(s: Seq<char>) -> nat
    decreases s.len(),
{
    if s.len() == 0 {
        0
    } else {
        digits_value(s.drop_last()) * 10 + ((s.last() as int - 48) as nat)
    }
}

/// The digits of an unsigned number's text: without its one optional `+`.
pub open spec fn unsigned_digits(s: Seq<char>) -> Seq<char> {
    if s.len() > 0 && s[0] == '+' {
        s.drop_first()
    } else {
        s
    }
}

/// What `str::parse::<u8>` gives: an optional `+`, then one or more decimal
/// digits spelling a number below 256; anything else is refused.
pub open spec fn parse_u8_spec(s: Seq<char>) -> Option<u8> {
    let d = unsigned_digits(s);
    if d.len() > 0 && (forall|i: int| 0 <= i < d.len() ==> is_digit(#[trigger] d[i]))
        && digits_value(d) <= 255 {
        Some(digits_value(d) as u8)
    } else {
        None
    }
}

/// Parses an unsigned 8-bit number the way `str::parse::<u8>` does.
pub fn parse_u8(s: &str) -> (r: Option<u8>)
    ensures
        r == parse_u8_spec(s@),
{
    let n = s.unicode_len();
    let start: usize = if n > 0 && s.get_char(0) == '+' {
        1
    } else {
        0
    };
    let ghost d = unsigned_digits(s@);
    assert(d =~= s@.subrange(start as int, n as int));
    if start == n {
        return None;
    }
    let mut v: u32 = 0;
    let mut i: usize = start;
    while i < n
        invariant
            start <= i <= n,
            n == s@.len(),
            d == s@.subrange(start as int, n as int),
            d == unsigned_digits(s@),
            v <= 256,
            v == (if digits_value(d.take(i - start)) < 256 {
                digits_value(d.take(i - start))
            } else {
                256
            }),
            forall|k: int| 0 <= k < i - start ==> is_digit(#[trigger] d[k]),
        decreases n - i,
    {
        let c = s.get_char(i);
        if !(c >= '0' && c <= '9') {
            assert(d[i - start] == c);
            assert(!is_digit(d[(i - start) as int]));
            assert(!(forall|k: int| 0 <= k < d.len() ==> is_digit(#[trigger] d[k])));
            return None;
        }
        let digit = (c as u32) - 48;
        let next = v * 10 + digit;
        v = if next < 256 {
            next
        } else {
            256
        };
        i = i + 1;
        assert(d.take(i - start).drop_last() =~= d.take(i - 1 - start));
        assert(d.take(i - start).last() == c);
    }
    assert(d.take(n - start) =~= d);
    if v <= 255 {
        Some(v as u8)
    } else {
        None
    }
}

/// Whether two strings hold the same characters.
pub fn str_equals(a: &str, b: &str) -> (r: bool)
    ensures
        r == (a@ == b@),
{
    let n = a.unicode_len();
    if n != b.unicode_len() {
        return false;
    }
    let mut i: usize = 0;
    while i < n
        invariant
            i <= n,
            n == a@.len(),
            n == b@.len(),
            a@.take(i as int) == b@.take(i as int),
        decreases n - i,
    {
        if a.get_char(i) != b.get_char(i) {
            return false;
        }
        i = i + 1;
        assert(a@.take(i as int) =~= a@.take(i - 1 as int).push(a@[i - 1 as int]));
        assert(b@.take(i as int) =~= b@.take(i - 1 as int).push(b@[i - 1 as int]));
    }
    assert(a@.take(n as int) =~= a@);
    assert(b@.take(n as int) =~= b@);
    true
}

/// The characters of each word.
pub open spec fn words(args: Seq<String>) -> Seq<Seq<char>> {
    args.map_values(|s: String| s@)
}

/// The payload of the request that the words of a command line ask for, or
/// the message that refuses them.
pub open spec fn request_payload(args: Seq<Seq<char>>) -> Result<Seq<u8>, Seq<char>> {
    if args.len() == 0 {
        Err("No command provided"@)
    } else if args[0] == "create_bridge"@ {
        if args.len() != 4 {
            Err("Usage: create_bridge <name> <ip> <prefix>"@)
        } else {
            match parse_u8_spec(args[3]) {
                None => Err("Invalid prefix"@),
                Some(p) => Ok(
                    field(ascii("create_bridge"@)) + field(encode_utf8(args[1])) + field(
                        encode_utf8(args[2]),
                    ) + seq![p],
                ),
            }
        }
    } else if args[0] == "create_veth"@ {
        if args.len() != 3 {
            Err("Usage: create_veth <front> <back>"@)
        } else {
            Ok(
                field(ascii("create_veth"@)) + field(encode_utf8(args[1])) + field(
                    encode_utf8(args[2]),
                ),
            )
        }
    } else if args[0] == "create_container"@ {
        if args.len() != 4 {
            Err("Usage: create_container <path> <arguments> <name>"@)
        } else {
            Ok(
                field(ascii("create container"@)) + field(encode_utf8(args[1])) + field(
                    encode_utf8(args[2]),
                ) + field(encode_utf8(args[3])),
            )
        }
    } else {
        Err("Unknown command: "@ + args[0])
    }
}

/// The request itself: its payload as one field, or the refusal.
pub open spec fn request_spec(args: Seq<Seq<char>>) -> Result<Seq<u8>, Seq<char>> {
    match request_payload(args) {
        Ok(p) => Ok(field(p)),
        Err(e) => Err(e),
    }
}

/// The bytes of a request, or the refusal message, by their views.
pub open spec fn request_view(r: Result<Vec<u8>, String>) -> Result<Seq<u8>, Seq<char>> {
    match r {
        Ok(v) => Ok(v@),
        Err(e) => Err(e@),
    }
}

/// Builds the request that the words of a command line ask for: the
/// command's name and its arguments, each as a field, all inside one field.
pub fn build_request(args: &[String]) -> (r: Result<Vec<u8>, String>)
    ensures
        request_view(r) == request_spec(words(args@)),
{
    let ghost w = words(args@);
    if args.len() == 0 {
        return Err(String::from_str("No command provided"));
    }
    let command = args[0].as_str();
    assert(w[0] == command@);
    let mut payload: Vec<u8> = Vec::new();
    proof {
        reveal_strlit("create_bridge");
        reveal_strlit("create_veth");
        reveal_strlit("create container");
    }
    if str_equals(command, "create_bridge") {
        if args.len() != 4 {
            return Err(String::from_str("Usage: create_bridge <name> <ip> <prefix>"));
        }
        assert(w[1] == args[1]@ && w[2] == args[2]@ && w[3] == args[3]@);
        add_field(&mut payload, literal("create_bridge"));
        add_field(&mut payload, args[1].as_str().as_bytes());
        add_field(&mut payload, args[2].as_str().as_bytes());
        let prefix = match parse_u8(args[3].as_str()) {
            Some(p) => p,
            None => {
                return Err(String::from_str("Invalid prefix"));
            },
        };
        payload.push(prefix);
        assert(payload@ =~= field(ascii("create_bridge"@)) + field(encode_utf8(w[1])) + field(
            encode_utf8(w[2]),
        ) + seq![prefix]);
    } else if str_equals(command, "create_veth") {
        if args.len() != 3 {
            return Err(String::from_str("Usage: create_veth <front> <back>"));
        }
        assert(w[1] == args[1]@ && w[2] == args[2]@);
        add_field(&mut payload, literal("create_veth"));
        add_field(&mut payload, args[1].as_str().as_bytes());
        add_field(&mut payload, args[2].as_str().as_bytes());
        assert(payload@ =~= field(ascii("create_veth"@)) + field(encode_utf8(w[1])) + field(
            encode_utf8(w[2]),
        ));
    } else if str_equals(command, "create_container") {
        if args.len() != 4 {
            return Err(String::from_str("Usage: create_container <path> <arguments> <name>"));
        }
        assert(w[1] == args[1]@ && w[2] == args[2]@ && w[3] == args[3]@);
        add_field(&mut payload, literal("create container"));
        add_field(&mut payload, args[1].as_str().as_bytes());
        add_field(&mut payload, args[2].as_str().as_bytes());
        add_field(&mut payload, args[3].as_str().as_bytes());
        assert(payload@ =~= field(ascii("create container"@)) + field(encode_utf8(w[1])) + field(
            encode_utf8(w[2]),
        ) + field(encode_utf8(w[3])));
    } else {
        return Err(String::from_str("Unknown command: ").concat(command));
    }
    let mut request: Vec<u8> = Vec::new();
    add_field(&mut request, payload.as_slice());
    assert(request_payload(w) == Ok::<Seq<u8>, Seq<char>>(payload@));
    Ok(request)
}

} // verus!

verus! {

/// A character with the Unicode `White_Space` property, the ones that
/// `char::is_whitespace` accepts.
pub open spec fn is_ws(c: char) -> bool {
    ||| c == '\t' || c == '\n' || c == '\u{0B}' || c == '\u{0C}' || c == '\r' || c == ' '
    ||| c == '\u{85}' || c == '\u{A0}' || c == '\u{1680}'
    ||| ('\u{2000}' <= c && c <= '\u{200A}')
    ||| c == '\u{2028}' || c == '\u{2029}' || c == '\u{202F}' || c == '\u{205F}' || c == '\u{3000}'
}

/// Whether `c` is white space, as `char::is_whitespace` tells.
pub fn char_is_ws(c: char) -> (r: bool)
    ensures
        r == is_ws(c),
{
    c == '\t' || c == '\n' || c == '\u{0B}' || c == '\u{0C}' || c == '\r' || c == ' ' || c
        == '\u{85}' || c == '\u{A0}' || c == '\u{1680}' || ('\u{2000}' <= c && c <= '\u{200A}')
        || c == '\u{2028}' || c == '\u{2029}' || c == '\u{202F}' || c == '\u{205F}' || c
        == '\u{3000}'
}

/// How many characters at the start of `s` are not white space.
pub open spec fn word_len(s: Seq<char>) -> nat
    decreases s.len(),
{
    if s.len() == 0 || is_ws(s[0]) {
        0
    } else {
        1 + word_len(s.drop_first())
    }
}

/// The words of `s`, as `str::split_whitespace` gives them: the maximal runs
/// of characters that are not white space, in order.
pub open spec fn split_ws(s: Seq<char>) -> Seq<Seq<char>>
    decreases s.len(),
{
    if s.len() == 0 {
        Seq::empty()
    } else if is_ws(s[0]) {
        split_ws(s.drop_first())
    } else {
        let n = word_len(s);
        if 0 < n <= s.len() {
            seq![s.take(n as int)] + split_ws(s.skip(n as int))
        } else {
            Seq::empty()
        }
    }
}

/// How many characters at the start of `s` are white space.
pub open spec fn leading_ws(s: Seq<char>) -> nat
    decreases s.len(),
{
    if s.len() > 0 && is_ws(s[0]) {
        1 + leading_ws(s.drop_first())
    } else {
        0
    }
}

/// How many characters at the end of `s` are white space.
pub open spec fn trailing_ws(s: Seq<char>) -> nat
    decreases s.len(),
{
    if s.len() > 0 && is_ws(s.last()) {
        1 + trailing_ws(s.drop_last())
    } else {
        0
    }
}

/// `s` without white space at either end, as `str::trim` gives it.
pub open spec fn trim_spec(s: Seq<char>) -> Seq<char> {
    let lead = leading_ws(s);
    if lead == s.len() {
        Seq::empty()
    } else {
        s.subrange(lead as int, s.len() - trailing_ws(s))
    }
}

/// What the command line does with one input line.
pub enum CliAction {
    /// Leave the loop.
    Exit,
    /// Nothing to do; read the next line.
    Skip,
    /// Show the help text.
    Help,
    /// Send this request to the server.
    Send(Vec<u8>),
    /// Report this refusal and read the next line.
    Refuse(String),
}

/// What the command line does with an input line: an empty line is
/// skipped, `exit` and `quit` leave, `help` shows the help, and anything
/// else is turned into a request from its words.
pub open spec fn cli_step_spec(line: Seq<char>) -> Result<Seq<u8>, Seq<char>> {
    request_spec(split_ws(trim_spec(line)))
}

proof fn lemma_word_len_bound(s: Seq<char>)
    ensures
        word_len(s) <= s.len(),
    decreases s.len(),
{
    if s.len() > 0 && !is_ws(s[0]) {
        lemma_word_len_bound(s.drop_first());
    }
}

proof fn lemma_leading_bound(s: Seq<char>)
    ensures
        leading_ws(s) <= s.len(),
    decreases s.len(),
{
    if s.len() > 0 && is_ws(s[0]) {
        lemma_leading_bound(s.drop_first());
    }
}

/// The leading run of white space ends at `i` when the characters before it
/// are white space and the one at it is not.
proof fn lemma_leading_at(s: Seq<char>, i: int)
    requires
        0 <= i <= s.len(),
        forall|k: int| 0 <= k < i ==> is_ws(#[trigger] s[k]),
        i == s.len() || !is_ws(s[i]),
    ensures
        leading_ws(s) == i,
    decreases i,
{
    if i > 0 {
        lemma_leading_at(s.drop_first(), i - 1);
    }
}

/// The trailing run of white space starts at `j` when the characters from
/// it on are white space and the one before it is not.
proof fn lemma_trailing_at(s: Seq<char>, j: int)
    requires
        0 <= j <= s.len(),
        forall|k: int| j <= k < s.len() ==> is_ws(#[trigger] s[k]),
        j == 0 || !is_ws(s[j - 1]),
    ensures
        trailing_ws(s) == s.len() - j,
    decreases s.len() - j,
{
    if j < s.len() {
        lemma_trailing_at(s.drop_last(), j);
    }
}

/// The trimmed line.
pub fn trim(s: &str) -> (r: &str)
    ensures
        r@ == trim_spec(s@),
{
    let n = s.unicode_len();
    let mut i: usize = 0;
    while i < n && char_is_ws(s.get_char(i))
        invariant
            i <= n,
            n == s@.len(),
            forall|k: int| 0 <= k < i ==> is_ws(#[trigger] s@[k]),
        decreases n - i,
    {
        i = i + 1;
    }
    proof {
        lemma_leading_at(s@, i as int);
    }
    if i == n {
        return s.substring_char(0, 0);
    }
    let mut j: usize = n;
    while j > i && char_is_ws(s.get_char(j - 1))
        invariant
            i < n,
            i <= j <= n,
            n == s@.len(),
            !is_ws(s@[i as int]),
            forall|k: int| j <= k < n ==> is_ws(#[trigger] s@[k]),
        decreases j,
    {
        j = j - 1;
    }
    proof {
        lemma_trailing_at(s@, j as int);
    }
    s.substring_char(i, j)
}

/// Splits the line into its words, as `str::split_whitespace` does.
pub fn split_words(s: &str) -> (r: Vec<String>)
    ensures
        words(r@) == split_ws(s@),
{
    let n = s.unicode_len();
    let mut out: Vec<String> = Vec::new();
    let mut i: usize = 0;
    assert(s@.skip(0) =~= s@);
    assert(words(out@) + split_ws(s@.skip(0)) =~= split_ws(s@));
    while i < n
        invariant
            i <= n,
            n == s@.len(),
            words(out@) + split_ws(s@.skip(i as int)) == split_ws(s@),
        decreases n - i,
    {
        let ghost rest = s@.skip(i as int);
        if char_is_ws(s.get_char(i)) {
            assert(rest.drop_first() =~= s@.skip(i + 1 as int));
            i = i + 1;
        } else {
            let mut j: usize = i;
            while j < n && !char_is_ws(s.get_char(j))
                invariant
                    i <= j <= n,
                    n == s@.len(),
                    rest == s@.skip(i as int),
                    forall|k: int| i <= k < j ==> !is_ws(#[trigger] s@[k]),
                decreases n - j,
            {
                j = j + 1;
            }
            proof {
                lemma_word_len_at(rest, j - i);
                assert(rest.take(j - i) =~= s@.subrange(i as int, j as int));
                assert(rest.skip(j - i) =~= s@.skip(j as int));
            }
            let word = s.substring_char(i, j).to_owned();
            let ghost before = out@;
            out.push(word);
            proof {
                assert(words(out@) =~= words(before).push(word@));
                assert(words(before).push(word@) + split_ws(s@.skip(j as int)) =~= words(before)
                    + split_ws(rest));
            }
            i = j;
        }
    }
    assert(s@.skip(n as int) =~= Seq::<char>::empty());
    assert(words(out@) + Seq::<Seq<char>>::empty() =~= words(out@));
    out
}

/// The first `len` characters of `s` are not white space and the one after
/// them, if any, is: the first word has length `len`.
proof fn lemma_word_len_at(s: Seq<char>, len: int)
    requires
        0 <= len <= s.len(),
        forall|k: int| 0 <= k < len ==> !is_ws(#[trigger] s[k]),
        len == s.len() || is_ws(s[len]),
    ensures
        word_len(s) == len,
    decreases len,
{
    if len > 0 {
        lemma_word_len_at(s.drop_first(), len - 1);
    }
}

/// What the command line does with one input line.
pub fn cli_step(line: &str) -> (r: CliAction)
    ensures
        trim_spec(line@).len() == 0 ==> r is Skip,
        trim_spec(line@) == "exit"@ || trim_spec(line@) == "quit"@ ==> r is Exit,
        trim_spec(line@) == "help"@ ==> r is Help,
        trim_spec(line@).len() != 0 && trim_spec(line@) != "exit"@ && trim_spec(line@) != "quit"@
            && trim_spec(line@) != "help"@ ==> match r {
            CliAction::Send(v) => cli_step_spec(line@) == Ok::<Seq<u8>, Seq<char>>(v@),
            CliAction::Refuse(e) => cli_step_spec(line@) == Err::<Seq<u8>, Seq<char>>(e@),
            _ => false,
        },
{
    proof {
        reveal_strlit("exit");
        reveal_strlit("quit");
        reveal_strlit("help");
        assert("exit"@[0] != "help"@[0]);
        assert("quit"@[0] != "help"@[0]);
    }
    let input = trim(line);
    if input.unicode_len() == 0 {
        return CliAction::Skip;
    }
    if str_equals(input, "exit") || str_equals(input, "quit") {
        return CliAction::Exit;
    }
    if str_equals(input, "help") {
        return CliAction::Help;
    }
    let args = split_words(input);
    match build_request(args.as_slice()) {
        Ok(request) => CliAction::Send(request),
        Err(e) => CliAction::Refuse(e),
    }
}

} // verus!
