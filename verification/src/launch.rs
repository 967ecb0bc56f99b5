//! How the server is started: over which transport, and how often it forgets.
use vstd::prelude::*;

use crate::error::Error;
use crate::mcp::http_server::opt_str_view;
use crate::text::{cat3, chars_of, same_text};

verus! {

/// What to serve on.
#[derive(Debug)]
pub enum Launch {
    /// Standard input and output.
    Stdio,
    /// HTTP, to clients that present this token.
    Http { token: String },
}

/// Why the server is not started, if it is not. HTTP is never served without
/// a token.
pub open spec fn launch_fault(
    transport: Seq<char>,
    addr_is_valid: bool,
    token: Option<Seq<char>>,
) -> Option<Seq<char>> {
    if transport == "http"@ {
        if !addr_is_valid {
            Some("invalid --http-addr; expected host:port"@)
        } else if token is None {
            Some(
                "HTTP transport requires --http-token (refusing to serve without authentication)"@,
            )
        } else {
            None
        }
    } else if transport == "stdio"@ {
        None
    } else {
        Some("unsupported --transport `"@ + transport + "` (expected `stdio` or `http`)"@)
    }
}

/// Choose what to serve on. `addr_is_valid` tells whether the address to
/// listen on is one.
pub fn choose_transport(transport: &str, addr_is_valid: bool, token: Option<&str>) -> (r: Result<
    Launch,
    Error,
>)
    ensures
        match r {
            Ok(launch) => {
                &&& launch_fault(transport@, addr_is_valid, opt_str_view(token)) is None
                &&& match launch {
                    Launch::Stdio => transport@ == "stdio"@,
                    Launch::Http { token: t } => transport@ == "http"@ && opt_str_view(token) == Some(
                        t@,
                    ),
                }
            },
            Err(e) => e is Config && launch_fault(transport@, addr_is_valid, opt_str_view(token))
                == Some(e.text()),
        },
{
    proof {
        reveal_strlit("http");
        reveal_strlit("stdio");
        assert("http"@.len() == 4 && "stdio"@.len() == 5);
    }
    if same_text(transport, "http") {
        if !addr_is_valid {
            return Err(Error::Config("invalid --http-addr; expected host:port".to_owned()));
        }
        match token {
            Some(t) => Ok(Launch::Http { token: t.to_owned() }),
            None => Err(
                Error::Config(
                    "HTTP transport requires --http-token (refusing to serve without authentication)".to_owned(),
                ),
            ),
        }
    } else if same_text(transport, "stdio") {
        Ok(Launch::Stdio)
    } else {
        Err(
            Error::Config(
                cat3("unsupported --transport `", transport, "` (expected `stdio` or `http`)"),
            ),
        )
    }
}

/// The character is a decimal digit.
pub open spec fn is_digit(c: char) -> bool {
    '0' <= c <= '9'
}

/// Every character is a decimal digit.
pub open spec fn all_digits(s: Seq<char>) -> bool {
    forall|i: int| 0 <= i < s.len() ==> is_digit(#[trigger] s[i])
}

/// The number that digits denote.
pub open spec fn number_of(s: Seq<char>) -> int
    decreases s.len(),
{
    if s.len() == 0 {
        0
    } else {
        number_of(s.drop_last()) * 10 + (s.last() as int - '0' as int)
    }
}

/// The text without a leading plus sign.
pub open spec fn without_sign(s: Seq<char>) -> Seq<char> {
    if s.len() > 0 && s[0] == '+' {
        s.subrange(1, s.len() as int)
    } else {
        s
    }
}

/// The seconds between two passes, when the text is a positive number of 64
/// bits.
pub open spec fn seconds_given(s: Seq<char>) -> Option<int> {
    let digits = without_sign(s);
    if digits.len() > 0 && all_digits(digits) && 0 < number_of(digits) <= u64::MAX {
        Some(number_of(digits))
    } else {
        None
    }
}

/// Longer digits denote no smaller number.
proof fn lemma_number_grows(s: Seq<char>, n: int)
    requires
        0 <= n <= s.len(),
        all_digits(s),
    ensures
        0 <= number_of(s.subrange(0, n)) <= number_of(s),
    decreases s.len(),
{
    assert(s.subrange(0, s.len() as int) == s);
    if s.len() > 0 {
        let front = s.drop_last();
        assert forall|i: int| 0 <= i < front.len() implies is_digit(#[trigger] front[i]) by {
            assert(front[i] == s[i]);
        }
        assert(is_digit(s[s.len() - 1]));
        let m = if n == s.len() {
            n - 1
        } else {
            n
        };
        lemma_number_grows(front, m);
        assert(front.subrange(0, m) == s.subrange(0, m));
    }
}

/// The seconds between two passes of forgetting, as configured: nothing unless
/// the setting is a positive number.
pub fn decay_interval(setting: Option<&str>) -> (r: Option<u64>)
    ensures
        match setting {
            Some(s) => match r {
                Some(n) => seconds_given(s@) == Some(n as int),
                None => seconds_given(s@) is None,
            },
            None => r is None,
        },
{
    let s: &str = match setting {
        Some(s) => s,
        None => {
            return None;
        },
    };
    let v: Vec<char> = chars_of(s);
    let start: usize = if v.len() > 0 && v[0] == '+' {
        1
    } else {
        0
    };
    let ghost digits = without_sign(s@);
    assert(v@.subrange(start as int, v@.len() as int) == digits);
    if start == v.len() {
        return None;
    }
    let mut n: u64 = 0;
    let mut i: usize = start;
    assert(digits.subrange(0, 0) =~= Seq::empty());
    while i < v.len()
        invariant
            setting == Some(s),
            start <= i <= v@.len(),
            digits == v@.subrange(start as int, v@.len() as int),
            digits == without_sign(s@),
            forall|k: int| 0 <= k < i - start ==> is_digit(#[trigger] digits[k]),
            n == number_of(digits.subrange(0, i - start)),
        decreases v.len() - i,
    {
        let c: char = v[i];
        let ghost at = i - start;
        assert(digits[at] == c);
        if c < '0' || c > '9' {
            return None;
        }
        let d: u64 = (c as u32 - '0' as u32) as u64;
        let ghost next = digits.subrange(0, at + 1);
        assert(next.drop_last() == digits.subrange(0, at));
        assert(next.last() == c);
        assert(number_of(next) == n * 10 + d);
        if n > (u64::MAX - d) / 10 {
            proof {
                if all_digits(digits) {
                    lemma_number_grows(digits, at + 1);
                }
            }
            return None;
        }
        n = n * 10 + d;
        i = i + 1;
    }
    assert(digits.subrange(0, digits.len() as int) == digits);
    if n == 0 {
        None
    } else {
        Some(n)
    }
}

/// What is served over HTTP asks for a token, whatever was configured.
pub proof fn law_http_needs_a_token(transport: Seq<char>, addr_is_valid: bool)
    ensures
        transport == "http"@ ==> launch_fault(transport, addr_is_valid, None) is Some,
{
}

/// The server starts on standard input and output, and over HTTP exactly with a
/// valid address and a token; on nothing else.
pub proof fn law_what_is_served_on(
    transport: Seq<char>,
    addr_is_valid: bool,
    token: Option<Seq<char>>,
)
    ensures
        launch_fault(transport, addr_is_valid, token) is None <==> transport == "stdio"@ || (
        transport == "http"@ && addr_is_valid && token is Some),
{
    reveal_strlit("http");
    reveal_strlit("stdio");
    assert("http"@.len() != "stdio"@.len());
}

/// A number in decimal reads as itself.
proof fn lemma_number_of_decimal(n: nat)
    ensures
        number_of(crate::text::decimal(n)) == n,
        all_digits(crate::text::decimal(n)),
        crate::text::decimal(n).len() > 0,
    decreases n,
{
    let d = crate::text::decimal(n);
    crate::text::law_decimal_reads_back(n);
    assert forall|i: int| 0 <= i < d.len() implies is_digit(#[trigger] d[i]) by {
        assert('0' <= d[i] <= '9');
    }
    if n < 10 {
        assert(d.drop_last() =~= Seq::empty());
        assert(number_of(d.drop_last()) == 0);
        assert(crate::text::digit(n) as int == '0' as int + n);
    } else {
        lemma_number_of_decimal(n / 10);
        assert(d.drop_last() =~= crate::text::decimal(n / 10));
        assert(crate::text::digit(n % 10) as int == '0' as int + n % 10);
    }
}

/// A number of seconds is read as it is written, with or without a plus sign;
/// zero, nothing and what is no number are no interval.
pub proof fn law_interval_reads_as_written(n: u64)
    ensures
        n > 0 ==> seconds_given(crate::text::decimal(n as nat)) == Some(n as int),
        n > 0 ==> seconds_given(seq!['+'] + crate::text::decimal(n as nat)) == Some(n as int),
        seconds_given(crate::text::decimal(0)) is None,
        seconds_given(Seq::empty()) is None,
        seconds_given(seq!['-'] + crate::text::decimal(n as nat)) is None,
{
    let d = crate::text::decimal(n as nat);
    lemma_number_of_decimal(n as nat);
    lemma_number_of_decimal(0);
    crate::text::law_decimal_reads_back(n as nat);
    crate::text::law_decimal_reads_back(0);
    let plus = seq!['+'] + d;
    assert(is_digit(d[0]));
    assert(without_sign(plus) =~= d);
    let minus = seq!['-'] + d;
    assert(minus[0] == '-');
    assert(without_sign(minus) == minus);
    assert(!is_digit(minus[0]));
    assert(is_digit(crate::text::decimal(0)[0]));
}

} // verus!
