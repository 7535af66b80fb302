//! The verified request/response logic of the minimal HTTP listener that
//! feeds the pool: request-line routing, header splitting, content-length
//! parsing, and response formatting. The listener itself — sockets, reads and
//! writes — lives outside the verified core and hands plain strings in and
//! out.

use vstd::prelude::*;
use vstd::string::StrSliceExecFns;
use vstd::string::StringExecFns;
use vstd::string::StringSliceAdditionalSpecFns;

verus! {

/// What a request line resolves to.
#[derive(Clone, Copy, PartialEq, Eq, Structural, Debug)]
pub enum Route {
    /// The root page: a success status and the greeting page.
    Root,
    /// The root page again, but served only after a five time-unit delay.
    Sleep,
    /// Any other request: the not-found status and payload.
    NotFound,
}

/// Character-for-character string equality.
pub fn str_eq(a: &str, b: &str) -> (r: bool)
    ensures
        r == (a@ == b@),
{
    let an = a.unicode_len();
    let bn = b.unicode_len();
    if an != bn {
        return false;
    }
    let mut i: usize = 0;
    while i < an
        invariant
            an == a@.len(),
            an == b@.len(),
            i <= an,
            forall|k: int| 0 <= k < i ==> a@[k] == b@[k],
        decreases an - i,
    {
        if a.get_char(i) != b.get_char(i) {
            return false;
        }
        i = i + 1;
    }
    proof {
        assert(a@ =~= b@);
    }
    true
}

/// Which route a (trimmed) request line selects.
pub open spec fn route_spec(line: Seq<char>) -> Route {
    if line == "GET / HTTP/1.1"@ {
        Route::Root
    } else if line == "GET /sleep HTTP/1.1"@ {
        Route::Sleep
    } else {
        Route::NotFound
    }
}

/// Resolves a request line: the root page, the deliberately slow page, or —
/// for any unrecognized request line — the not-found response.
pub fn route(line: &str) -> (r: Route)
    ensures
        r == route_spec(line@),
{
    if str_eq(line, "GET / HTTP/1.1") {
        Route::Root
    } else if str_eq(line, "GET /sleep HTTP/1.1") {
        Route::Sleep
    } else {
        Route::NotFound
    }
}

/// The status line each route answers with.
pub open spec fn status_line_spec(r: Route) -> Seq<char> {
    match r {
        Route::Root => "HTTP/1.1 200 OK"@,
        Route::Sleep => "HTTP/1.1 200 OK"@,
        Route::NotFound => "HTTP/1.1 404 NOT FOUND"@,
    }
}

/// The status line for a route.
pub fn status_line(r: Route) -> (s: &'static str)
    ensures
        s@ == status_line_spec(r),
{
    match r {
        Route::Root => "HTTP/1.1 200 OK",
        Route::Sleep => "HTTP/1.1 200 OK",
        Route::NotFound => "HTTP/1.1 404 NOT FOUND",
    }
}

/// The file each route's payload comes from.
pub open spec fn filename_spec(r: Route) -> Seq<char> {
    match r {
        Route::Root => "hello.html"@,
        Route::Sleep => "hello.html"@,
        Route::NotFound => "404.html"@,
    }
}

/// The payload file for a route.
pub fn filename(r: Route) -> (s: &'static str)
    ensures
        s@ == filename_spec(r),
{
    match r {
        Route::Root => "hello.html",
        Route::Sleep => "hello.html",
        Route::NotFound => "404.html",
    }
}

/// Whether serving the route begins with the five time-unit delay.
pub fn needs_delay(r: Route) -> (b: bool)
    ensures
        b == (r is Sleep),
{
    match r {
        Route::Sleep => true,
        _ => false,
    }
}

/// The whitespace a line is trimmed of.
pub open spec fn is_line_space(c: char) -> bool {
    c == ' ' || c == '\t' || c == '\r' || c == '\n'
}

/// `s` without its leading whitespace.
pub open spec fn trim_front(s: Seq<char>) -> Seq<char>
    decreases s.len(),
{
    if s.len() > 0 && is_line_space(s[0]) {
        trim_front(s.skip(1))
    } else {
        s
    }
}

/// `s` without its trailing whitespace.
pub open spec fn trim_back(s: Seq<char>) -> Seq<char>
    decreases s.len(),
{
    if s.len() > 0 && is_line_space(s.last()) {
        trim_back(s.drop_last())
    } else {
        s
    }
}

/// `s` without leading and trailing whitespace.
pub open spec fn trim_spec(s: Seq<char>) -> Seq<char> {
    trim_back(trim_front(s))
}

proof fn lemma_trim_front_skip(s: Seq<char>, i: int)
    requires
        0 <= i <= s.len(),
        forall|k: int| 0 <= k < i ==> is_line_space(#[trigger] s[k]),
        i == s.len() || !is_line_space(s[i]),
    ensures
        trim_front(s) == s.skip(i),
    decreases i,
{
    if i == 0 {
        assert(s.skip(0) =~= s);
    } else {
        lemma_trim_front_skip(s.skip(1), i - 1);
        assert(s.skip(1).skip(i - 1) =~= s.skip(i));
    }
}

proof fn lemma_trim_back_take(s: Seq<char>, j: int)
    requires
        0 <= j <= s.len(),
        forall|k: int| j <= k < s.len() ==> is_line_space(#[trigger] s[k]),
        j == 0 || !is_line_space(s[j - 1]),
    ensures
        trim_back(s) == s.take(j),
    decreases s.len() - j,
{
    if j == s.len() {
        assert(s.take(j) =~= s);
    } else {
        assert(is_line_space(s.last()));
        lemma_trim_back_take(s.drop_last(), j);
        assert(s.drop_last().take(j) =~= s.take(j));
    }
}

/// Whether `c` is whitespace, executable form.
pub fn line_space(c: char) -> (b: bool)
    ensures
        b == is_line_space(c),
{
    c == ' ' || c == '\t' || c == '\r' || c == '\n'
}

/// A copy of `s` with leading and trailing whitespace removed.
pub fn trim_line(s: &str) -> (r: String)
    ensures
        r@ == trim_spec(s@),
{
    let n = s.unicode_len();
    let mut start: usize = 0;
    while start < n && line_space(s.get_char(start))
        invariant
            n == s@.len(),
            start <= n,
            forall|k: int| 0 <= k < start ==> is_line_space(#[trigger] s@[k]),
        decreases n - start,
    {
        start = start + 1;
    }
    let mut end: usize = n;
    while end > start && line_space(s.get_char(end - 1))
        invariant
            n == s@.len(),
            start <= end <= n,
            forall|k: int| 0 <= k < start ==> is_line_space(#[trigger] s@[k]),
            forall|k: int| end <= k < n ==> is_line_space(#[trigger] s@[k]),
        decreases end,
    {
        end = end - 1;
    }
    let r = s.substring_char(start, end).to_owned();
    proof {
        let t = s@.skip(start as int);
        lemma_trim_front_skip(s@, start as int);
        assert forall|k: int| (end - start) <= k < t.len() implies is_line_space(
            #[trigger] t[k],
        ) by {
            assert(t[k] == s@[k + start]);
        }
        lemma_trim_back_take(t, end - start);
        assert(r@ =~= t.take(end - start));
    }
    r
}

/// The first colon of `line` stands at `i`.
pub open spec fn colon_at(line: Seq<char>, i: int) -> bool {
    &&& 0 <= i < line.len()
    &&& line[i] == ':'
    &&& forall|k: int| 0 <= k < i ==> line[k] != ':'
}

/// `line` contains a colon somewhere.
pub open spec fn has_colon(line: Seq<char>) -> bool {
    exists|i: int| 0 <= i < line.len() && line[i] == ':'
}

/// Splits one header line at its first colon into name and value. The blank
/// terminator line maps to the reserved name `ENDHEADER` with an empty value;
/// a non-empty line without a colon is malformed and yields nothing.
pub fn split_header_line(line: &str) -> (r: Option<(String, String)>)
    ensures
        match r {
            Some(p) => {
                if line@.len() == 0 {
                    p.0@ == "ENDHEADER"@ && p.1@.len() == 0
                } else {
                    exists|i: int|
                        #[trigger] colon_at(line@, i) && p.0@ == line@.subrange(0, i) && p.1@
                            == line@.subrange(i + 1, line@.len() as int)
                }
            },
            None => line@.len() > 0 && !has_colon(line@),
        },
        r is Some <==> (line@.len() == 0 || has_colon(line@)),
{
    let n = line.unicode_len();
    if n == 0 {
        return Some((String::from_str("ENDHEADER"), String::new()));
    }
    let mut i: usize = 0;
    while i < n
        invariant
            n == line@.len(),
            i <= n,
            forall|k: int| 0 <= k < i ==> line@[k] != ':',
        decreases n - i,
    {
        if line.get_char(i) == ':' {
            let name = line.substring_char(0, i).to_owned();
            let value = line.substring_char(i + 1, n).to_owned();
            proof {
                assert(colon_at(line@, i as int));
            }
            return Some((name, value));
        }
        i = i + 1;
    }
    proof {
        assert(!has_colon(line@)) by {
            if has_colon(line@) {
                let k = choose|k: int| 0 <= k < line@.len() && line@[k] == ':';
                assert(false);
            }
        }
    }
    None
}

/// Whether `c` is a decimal digit.
pub open spec fn is_digit(c: char) -> bool {
    48 <= c as u32 <= 57
}

/// The value of a decimal digit (0 for anything else).
pub open spec fn digit_val(c: char) -> nat {
    if is_digit(c) {
        (c as u32 - 48) as nat
    } else {
        0
    }
}

/// The number the digit string `s` denotes.
pub open spec fn digits_val(s: Seq<char>) -> nat
    decreases s.len(),
{
    if s.len() == 0 {
        0
    } else {
        digits_val(s.drop_last()) * 10 + digit_val(s.last())
    }
}

/// The part of `s` that must be all digits: everything after an optional
/// leading plus sign.
pub open spec fn numeric_body(s: Seq<char>) -> Seq<char> {
    if s.len() > 0 && s[0] == '+' {
        s.skip(1)
    } else {
        s
    }
}

/// When a string parses as an unsigned length: a non-empty run of digits
/// after an optional plus sign, whose value fits the machine.
pub open spec fn parse_ok(s: Seq<char>) -> bool {
    &&& numeric_body(s).len() > 0
    &&& (forall|k: int| 0 <= k < numeric_body(s).len() ==> is_digit(#[trigger] numeric_body(s)[k]))
    &&& digits_val(numeric_body(s)) <= usize::MAX
}

proof fn lemma_digits_val_step(s: Seq<char>, i: int)
    requires
        0 <= i < s.len(),
    ensures
        digits_val(s.take(i + 1)) == digits_val(s.take(i)) * 10 + digit_val(s[i]),
{
    assert(s.take(i + 1).drop_last() =~= s.take(i));
    assert(s.take(i + 1).last() == s[i]);
}

proof fn lemma_digits_val_monotone(s: Seq<char>, i: int)
    requires
        0 <= i <= s.len(),
    ensures
        digits_val(s) >= digits_val(s.take(i)),
    decreases s.len() - i,
{
    if i == s.len() {
        assert(s.take(i) =~= s);
    } else {
        lemma_digits_val_step(s, i);
        lemma_digits_val_monotone(s, i + 1);
    }
}

/// Parses a `Content-Length` header value as a byte count: a non-empty digit
/// string (an optional leading plus sign is tolerated, as the standard
/// library's integer parsing does) whose value fits the machine; anything
/// else yields nothing.
pub fn parse_content_length(s: &str) -> (r: Option<usize>)
    ensures
        match r {
            Some(v) => parse_ok(s@) && v == digits_val(numeric_body(s@)),
            None => !parse_ok(s@),
        },
        r is Some <==> parse_ok(s@),
{
    let n = s.unicode_len();
    let mut i: usize = 0;
    if n > 0 && s.get_char(0) == '+' {
        i = 1;
    }
    let ghost start = i as int;
    let ghost body = numeric_body(s@);
    proof {
        assert(body =~= s@.skip(start));
    }
    if i == n {
        return None;
    }
    let mut acc: usize = 0;
    while i < n
        invariant
            n == s@.len(),
            0 <= start <= i <= n,
            body == numeric_body(s@),
            body == s@.skip(start),
            forall|k: int| 0 <= k < i - start ==> is_digit(#[trigger] body[k]),
            acc == digits_val(body.take(i - start)),
        decreases n - i,
    {
        let c = s.get_char(i);
        let u = c as u32;
        if u < 48 || u > 57 {
            proof {
                assert(body[i - start] == s@[i as int]);
                assert(!is_digit(body[i - start]));
            }
            return None;
        }
        let d = (u - 48) as usize;
        proof {
            assert(body[i - start] == s@[i as int]);
            lemma_digits_val_step(body, i - start);
        }
        let next = match acc.checked_mul(10) {
            Some(m) => m.checked_add(d),
            None => None,
        };
        match next {
            Some(v) => {
                acc = v;
            },
            None => {
                proof {
                    assert(digits_val(body.take(i - start + 1)) > usize::MAX);
                    lemma_digits_val_monotone(body, i - start + 1);
                }
                return None;
            },
        }
        i = i + 1;
    }
    proof {
        assert(body.take(i - start) =~= body);
    }
    Some(acc)
}

/// The digit character for a value below ten.
pub open spec fn digit_char(d: nat) -> char {
    if d == 0 {
        '0'
    } else if d == 1 {
        '1'
    } else if d == 2 {
        '2'
    } else if d == 3 {
        '3'
    } else if d == 4 {
        '4'
    } else if d == 5 {
        '5'
    } else if d == 6 {
        '6'
    } else if d == 7 {
        '7'
    } else if d == 8 {
        '8'
    } else {
        '9'
    }
}

/// The decimal rendering of `n`, most significant digit first.
pub open spec fn dec_str(n: nat) -> Seq<char>
    decreases n,
{
    if n < 10 {
        seq![digit_char(n)]
    } else {
        dec_str(n / 10).push(digit_char(n % 10))
    }
}

fn digit_str(d: usize) -> (s: &'static str)
    requires
        d < 10,
    ensures
        s@ == seq![digit_char(d as nat)],
{
    let s: &'static str = match d {
        0 => "0",
        1 => "1",
        2 => "2",
        3 => "3",
        4 => "4",
        5 => "5",
        6 => "6",
        7 => "7",
        8 => "8",
        _ => "9",
    };
    proof {
        reveal_strlit("0");
        reveal_strlit("1");
        reveal_strlit("2");
        reveal_strlit("3");
        reveal_strlit("4");
        reveal_strlit("5");
        reveal_strlit("6");
        reveal_strlit("7");
        reveal_strlit("8");
        reveal_strlit("9");
        assert(s@ =~= seq![digit_char(d as nat)]);
    }
    s
}

/// Renders `n` in decimal.
pub fn usize_to_string(n: usize) -> (s: String)
    ensures
        s@ == dec_str(n as nat),
    decreases n,
{
    if n < 10 {
        String::from_str(digit_str(n))
    } else {
        proof {
            assert(n / 10 < n);
        }
        let mut s = usize_to_string(n / 10);
        s.append(digit_str(n % 10));
        proof {
            assert(dec_str((n / 10) as nat) + seq![digit_char((n % 10) as nat)] =~= dec_str(
                (n / 10) as nat,
            ).push(digit_char((n % 10) as nat)));
        }
        s
    }
}

/// The whole response for a status line and a payload: the status line, a
/// `Content-Length` header giving exactly the payload's byte length, a blank
/// line, and the payload.
pub open spec fn response_spec(status: Seq<char>, body_bytes: nat, body: Seq<char>) -> Seq<char> {
    status + "\r\nContent-Length: "@ + dec_str(body_bytes) + "\r\n\r\n"@ + body
}

/// Formats the response for a status line and a payload. The payload's byte
/// length fits the machine, as it does for any string actually held in
/// memory.
pub fn format_response(status: &str, contents: &str) -> (r: String)
    requires
        contents.spec_bytes().len() <= usize::MAX,
    ensures
        r@ == response_spec(status@, contents.spec_bytes().len(), contents@),
{
    let mut r = status.to_owned();
    r.append("\r\nContent-Length: ");
    let blen = contents.len();
    proof {
        assert(blen == contents.spec_bytes().len());
    }
    let len_str = usize_to_string(blen);
    r.append(len_str.as_str());
    r.append("\r\n\r\n");
    r.append(contents);
    proof {
        assert(r@ =~= response_spec(status@, contents.spec_bytes().len(), contents@));
    }
    r
}

} // verus!
