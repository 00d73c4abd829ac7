use vstd::prelude::*;
use vstd::string::*;

use crate::digits::{
    all_digits, dec_value, is_digit, lemma_dec_value_bounds, parse_u64_digits, pow10,
};
use crate::error::DnsError;

verus! {

/// A character that may belong to a dotted-decimal address.
pub open spec fn is_addr_char(c: char) -> bool {
    is_digit(c) || c == '.'
}

/// Index of the first address character, or the length when there is none.
pub open spec fn first_addr_char(s: Seq<char>) -> int
    decreases s.len(),
{
    if s.len() == 0 {
        0
    } else if is_addr_char(s[0]) {
        0
    } else {
        1 + first_addr_char(s.drop_first())
    }
}

/// Length of the run of address characters at the head of the text.
pub open spec fn run_len(s: Seq<char>) -> int
    decreases s.len(),
{
    if s.len() == 0 || !is_addr_char(s[0]) {
        0
    } else {
        1 + run_len(s.drop_first())
    }
}

/// The first maximal run of digits and dots in the text; empty when the
/// text holds no such character. This tolerates the quoting and whitespace
/// the lookup wraps its text record in.
pub open spec fn extracted(s: Seq<char>) -> Seq<char> {
    let rest = s.skip(first_addr_char(s));
    rest.take(run_len(rest))
}

/// A position with no address character before it, at which the text ends
/// or holds one, is the first address character position.
proof fn lemma_first_addr_char_is(s: Seq<char>, k: int)
    requires
        0 <= k <= s.len(),
        forall|j: int| 0 <= j < k ==> !is_addr_char(s[j]),
        k < s.len() ==> is_addr_char(s[k]),
    ensures
        first_addr_char(s) == k,
    decreases k,
{
    if s.len() == 0 {
    } else if is_addr_char(s[0]) {
    } else {
        assert forall|j: int| 0 <= j < k - 1 implies !is_addr_char(s.drop_first()[j]) by {
            assert(s.drop_first()[j] == s[j + 1]);
        }
        if k - 1 < s.drop_first().len() {
            assert(s.drop_first()[k - 1] == s[k]);
        }
        lemma_first_addr_char_is(s.drop_first(), k - 1);
    }
}

/// A position up to which everything is an address character and at which
/// the text ends or holds none is the head run's length.
proof fn lemma_run_len_is(s: Seq<char>, k: int)
    requires
        0 <= k <= s.len(),
        forall|j: int| 0 <= j < k ==> is_addr_char(s[j]),
        k < s.len() ==> !is_addr_char(s[k]),
    ensures
        run_len(s) == k,
    decreases k,
{
    if s.len() == 0 || !is_addr_char(s[0]) {
    } else {
        assert forall|j: int| 0 <= j < k - 1 implies is_addr_char(s.drop_first()[j]) by {
            assert(s.drop_first()[j] == s[j + 1]);
        }
        if k - 1 < s.drop_first().len() {
            assert(s.drop_first()[k - 1] == s[k]);
        }
        lemma_run_len_is(s.drop_first(), k - 1);
    }
}

/// The head run is within bounds and consists of address characters.
proof fn lemma_run_len_props(s: Seq<char>)
    ensures
        0 <= run_len(s) <= s.len(),
        forall|j: int| 0 <= j < run_len(s) ==> is_addr_char(s[j]),
    decreases s.len(),
{
    if s.len() != 0 && is_addr_char(s[0]) {
        lemma_run_len_props(s.drop_first());
        assert forall|j: int| 0 <= j < run_len(s) implies is_addr_char(s[j]) by {
            if j > 0 {
                assert(s.drop_first()[j - 1] == s[j]);
            }
        }
    }
}

/// A text of address characters only is extracted whole.
pub proof fn lemma_extracted_all_addr(s: Seq<char>)
    requires
        forall|j: int| 0 <= j < s.len() ==> is_addr_char(s[j]),
    ensures
        extracted(s) == s,
{
    lemma_first_addr_char_is(s, 0);
    lemma_run_len_is(s, s.len() as int);
    assert(s.skip(0) =~= s);
    assert(extracted(s) =~= s);
}

/// The first address character position is within bounds.
proof fn lemma_first_addr_char_props(s: Seq<char>)
    ensures
        0 <= first_addr_char(s) <= s.len(),
    decreases s.len(),
{
    if s.len() != 0 && !is_addr_char(s[0]) {
        lemma_first_addr_char_props(s.drop_first());
    }
}

/// Extraction is idempotent: what it yields once, it yields unchanged
/// when extracted again.
pub proof fn lemma_extracted_idempotent(s: Seq<char>)
    ensures
        extracted(extracted(s)) == extracted(s),
{
    let rest = s.skip(first_addr_char(s));
    lemma_first_addr_char_props(s);
    lemma_run_len_props(rest);
    assert forall|j: int| 0 <= j < extracted(s).len() implies is_addr_char(extracted(s)[j]) by {
        assert(extracted(s)[j] == rest[j]);
    }
    lemma_extracted_all_addr(extracted(s));
}

/// The dotted-quad shape at given dot positions: three dots, and a valid
/// octet between each neighbouring pair and at both ends.
pub open spec fn ipv4_parts(s: Seq<char>, i: int, j: int, k: int) -> bool {
    &&& 0 <= i < j < k < s.len()
    &&& s[i] == '.'
    &&& s[j] == '.'
    &&& s[k] == '.'
    &&& valid_octet(s.subrange(0, i))
    &&& valid_octet(s.subrange(i + 1, j))
    &&& valid_octet(s.subrange(j + 1, k))
    &&& valid_octet(s.subrange(k + 1, s.len() as int))
}

/// One component of a dotted quad: one to three digits denoting a number up
/// to 255, with no leading zero beyond a lone `0`.
pub open spec fn valid_octet(s: Seq<char>) -> bool {
    &&& 1 <= s.len() <= 3
    &&& all_digits(s)
    &&& (s.len() > 1 ==> s[0] != '0')
    &&& dec_value(s) <= 255
}

/// A canonical dotted-decimal IPv4 address: exactly four dot-separated
/// octets with nothing around them.
pub open spec fn valid_ipv4(s: Seq<char>) -> bool {
    exists|i: int, j: int, k: int| ipv4_parts(s, i, j, k)
}

/// Position of the first address character, or the length when there is
/// none, together with its defining facts.
fn find_addr_start(text: &str) -> (r: usize)
    ensures
        r == first_addr_char(text@),
        r <= text@.len(),
        r < text@.len() ==> is_addr_char(text@[r as int]),
{
    let n = text.unicode_len();
    let mut i: usize = 0;
    while i < n
        invariant
            i <= n == text@.len(),
            forall|j: int| 0 <= j < i ==> !is_addr_char(text@[j]),
        decreases n - i,
    {
        let c = text.get_char(i);
        if ('0' <= c && c <= '9') || c == '.' {
            proof {
                lemma_first_addr_char_is(text@, i as int);
            }
            return i;
        }
        i = i + 1;
    }
    proof {
        lemma_first_addr_char_is(text@, n as int);
    }
    n
}

/// End (exclusive) of the run of address characters that starts at `from`.
fn find_run_end(text: &str, from: usize) -> (r: usize)
    requires
        from <= text@.len(),
    ensures
        from <= r <= text@.len(),
        r - from == run_len(text@.skip(from as int)),
{
    let n = text.unicode_len();
    let mut i: usize = from;
    while i < n
        invariant
            from <= i <= n == text@.len(),
            forall|j: int| from <= j < i ==> is_addr_char(text@[j]),
        decreases n - i,
    {
        let c = text.get_char(i);
        if !(('0' <= c && c <= '9') || c == '.') {
            proof {
                lemma_run_end_from(text@, from as int, i as int);
            }
            return i;
        }
        i = i + 1;
    }
    proof {
        lemma_run_end_from(text@, from as int, n as int);
    }
    n
}

/// Transfers the run characterization from absolute positions to the
/// suffix that starts at `from`.
proof fn lemma_run_end_from(s: Seq<char>, from: int, end: int)
    requires
        0 <= from <= end <= s.len(),
        forall|j: int| from <= j < end ==> is_addr_char(s[j]),
        end < s.len() ==> !is_addr_char(s[end]),
    ensures
        run_len(s.skip(from)) == end - from,
{
    let rest = s.skip(from);
    assert forall|j: int| 0 <= j < end - from implies is_addr_char(rest[j]) by {
        assert(rest[j] == s[from + j]);
    }
    if end - from < rest.len() {
        assert(rest[end - from] == s[end]);
    }
    lemma_run_len_is(rest, end - from);
}

/// Position of the first dot at or past `from`, together with the
/// knowledge that nothing between is one.
fn find_dot(text: &str, from: usize) -> (r: Option<usize>)
    requires
        from <= text@.len(),
    ensures
        match r {
            Some(p) => from <= p < text@.len() && text@[p as int] == '.' && forall|j: int|
                from <= j < p ==> text@[j] != '.',
            None => forall|j: int| from <= j < text@.len() ==> text@[j] != '.',
        },
{
    let n = text.unicode_len();
    let mut i: usize = from;
    while i < n
        invariant
            from <= i <= n == text@.len(),
            forall|j: int| from <= j < i ==> text@[j] != '.',
        decreases n - i,
    {
        if text.get_char(i) == '.' {
            return Some(i);
        }
        i = i + 1;
    }
    None
}

/// Whether the characters of `text` between `from` and `to` form a valid
/// octet.
fn octet_ok(text: &str, from: usize, to: usize) -> (r: bool)
    requires
        from <= to <= text@.len(),
    ensures
        r == valid_octet(text@.subrange(from as int, to as int)),
{
    let ghost piece = text@.subrange(from as int, to as int);
    let len = to - from;
    if len == 0 || len > 3 {
        return false;
    }
    if len > 1 && text.get_char(from) == '0' {
        return false;
    }
    let sub = text.substring_char(from, to);
    match parse_u64_digits(sub) {
        Some(v) => {
            proof {
                lemma_dec_value_bounds(piece);
            }
            v <= 255
        },
        None => {
            proof {
                if all_digits(piece) {
                    lemma_dec_value_bounds(piece);
                    reveal_with_fuel(pow10, 4);
                    if piece.len() == 1 {
                        assert(pow10(piece.len()) == 10);
                    } else if piece.len() == 2 {
                        assert(pow10(piece.len()) == 100);
                    } else {
                        assert(pow10(piece.len()) == 1000);
                    }
                }
            }
            false
        },
    }
}

/// Decides whether the text is a canonical dotted-decimal IPv4 address:
/// four octets, each 0 to 255 with no leading zero, and nothing else.
pub fn validate(ip_addr: &str) -> (r: bool)
    ensures
        r == valid_ipv4(ip_addr@),
{
    let ghost s = ip_addr@;
    let n = ip_addr.unicode_len();
    let i = match find_dot(ip_addr, 0) {
        Some(p) => p,
        None => {
            proof {
                if valid_ipv4(s) {
                    let (i0, j0, k0) = choose|i0: int, j0: int, k0: int| ipv4_parts(s, i0, j0, k0);
                    assert(s[i0] == '.');
                }
            }
            return false;
        },
    };
    proof {
        lemma_dot_is_first(s, i as int);
    }
    let j = match find_dot(ip_addr, i + 1) {
        Some(p) => p,
        None => {
            proof {
                if valid_ipv4(s) {
                    let (i0, j0, k0) = choose|i0: int, j0: int, k0: int| ipv4_parts(s, i0, j0, k0);
                    assert(s[j0] == '.');
                }
            }
            return false;
        },
    };
    proof {
        lemma_dot_is_second(s, i as int, j as int);
    }
    let k = match find_dot(ip_addr, j + 1) {
        Some(p) => p,
        None => {
            proof {
                if valid_ipv4(s) {
                    let (i0, j0, k0) = choose|i0: int, j0: int, k0: int| ipv4_parts(s, i0, j0, k0);
                    assert(s[k0] == '.');
                }
            }
            return false;
        },
    };
    proof {
        lemma_dot_is_third(s, i as int, j as int, k as int);
    }
    match find_dot(ip_addr, k + 1) {
        Some(p) => {
            proof {
                if valid_ipv4(s) {
                    let (i0, j0, k0) = choose|i0: int, j0: int, k0: int| ipv4_parts(s, i0, j0, k0);
                    assert(s.subrange(k0 + 1, s.len() as int)[p - k0 - 1] == s[p as int]);
                }
            }
            return false;
        },
        None => {},
    }
    let o1 = octet_ok(ip_addr, 0, i);
    let o2 = octet_ok(ip_addr, i + 1, j);
    let o3 = octet_ok(ip_addr, j + 1, k);
    let o4 = octet_ok(ip_addr, k + 1, n);
    proof {
        if o1 && o2 && o3 && o4 {
            assert(ipv4_parts(s, i as int, j as int, k as int));
        }
        if valid_ipv4(s) {
            let (i0, j0, k0) = choose|i0: int, j0: int, k0: int| ipv4_parts(s, i0, j0, k0);
            assert(i0 == i && j0 == j && k0 == k) by {
                lemma_dots_agree(s, i0, j0, k0, i as int, j as int, k as int);
            }
        }
    }
    o1 && o2 && o3 && o4
}

/// In a decomposed address, an octet position never holds a dot.
proof fn lemma_octet_no_dot(piece: Seq<char>, m: int)
    requires
        valid_octet(piece),
        0 <= m < piece.len(),
    ensures
        piece[m] != '.',
{
    assert(is_digit(piece[m]));
}

/// The first dot of a decomposed address is its first octet boundary.
proof fn lemma_dots_agree(s: Seq<char>, i0: int, j0: int, k0: int, i: int, j: int, k: int)
    requires
        ipv4_parts(s, i0, j0, k0),
        0 <= i < s.len() && s[i] == '.' && forall|m: int| 0 <= m < i ==> s[m] != '.',
        i < j < s.len() && s[j] == '.' && forall|m: int| i < m < j ==> s[m] != '.',
        j < k < s.len() && s[k] == '.' && forall|m: int| j < m < k ==> s[m] != '.',
    ensures
        i0 == i && j0 == j && k0 == k,
{
    if i < i0 {
        assert(s.subrange(0, i0)[i] == s[i]);
        lemma_octet_no_dot(s.subrange(0, i0), i);
    }
    assert(i0 == i);
    if j < j0 {
        assert(s.subrange(i0 + 1, j0)[j - i0 - 1] == s[j]);
        lemma_octet_no_dot(s.subrange(i0 + 1, j0), j - i0 - 1);
    }
    assert(j0 == j);
    if k < k0 {
        assert(s.subrange(j0 + 1, k0)[k - j0 - 1] == s[k]);
        lemma_octet_no_dot(s.subrange(j0 + 1, k0), k - j0 - 1);
    }
    assert(k0 == k);
}

/// In a decomposed address the found first dot is the first boundary.
proof fn lemma_dot_is_first(s: Seq<char>, i: int)
    requires
        0 <= i < s.len() && s[i] == '.',
        forall|m: int| 0 <= m < i ==> s[m] != '.',
    ensures
        forall|i0: int, j0: int, k0: int| ipv4_parts(s, i0, j0, k0) ==> i0 == i,
{
    assert forall|i0: int, j0: int, k0: int| ipv4_parts(s, i0, j0, k0) implies i0 == i by {
        if i < i0 {
            assert(s.subrange(0, i0)[i] == s[i]);
            lemma_octet_no_dot(s.subrange(0, i0), i);
        }
    }
}

/// In a decomposed address whose first boundary is `i`, the first dot past
/// it is the second boundary.
proof fn lemma_dot_is_second(s: Seq<char>, i: int, j: int)
    requires
        forall|i0: int, j0: int, k0: int| ipv4_parts(s, i0, j0, k0) ==> i0 == i,
        i < j < s.len() && s[j] == '.',
        forall|m: int| i < m < j ==> s[m] != '.',
    ensures
        forall|i0: int, j0: int, k0: int| ipv4_parts(s, i0, j0, k0) ==> i0 == i && j0 == j,
{
    assert forall|i0: int, j0: int, k0: int| ipv4_parts(s, i0, j0, k0) implies i0 == i && j0
        == j by {
        if j < j0 {
            assert(s.subrange(i0 + 1, j0)[j - i0 - 1] == s[j]);
            lemma_octet_no_dot(s.subrange(i0 + 1, j0), j - i0 - 1);
        }
    }
}

/// In a decomposed address whose first two boundaries are `i` and `j`, the
/// first dot past them is the third boundary.
proof fn lemma_dot_is_third(s: Seq<char>, i: int, j: int, k: int)
    requires
        forall|i0: int, j0: int, k0: int| ipv4_parts(s, i0, j0, k0) ==> i0 == i && j0 == j,
        j < k < s.len() && s[k] == '.',
        forall|m: int| j < m < k ==> s[m] != '.',
    ensures
        forall|i0: int, j0: int, k0: int| ipv4_parts(s, i0, j0, k0) ==> i0 == i && j0 == j
            && k0 == k,
{
    assert forall|i0: int, j0: int, k0: int| ipv4_parts(s, i0, j0, k0) implies i0 == i && j0
        == j && k0 == k by {
        if k < k0 {
            assert(s.subrange(j0 + 1, k0)[k - j0 - 1] == s[k]);
            lemma_octet_no_dot(s.subrange(j0 + 1, k0), k - j0 - 1);
        }
    }
}

/// The fixed external lookup invocation. It carries no state of its own;
/// what it describes is the one command line the resolver ever runs.
pub struct DigCommand;

impl DigCommand {
    pub fn new() -> (r: Self) {
        Self
    }

    /// The command line of the lookup: the program followed by its fixed,
    /// non-configurable arguments requesting a TXT record from the named
    /// authoritative server.
    pub fn gen_command(&self) -> (r: Vec<String>)
        ensures
            r@.len() == 6,
            r@[0]@ == "dig"@,
            r@[1]@ == "-4"@,
            r@[2]@ == "@ns1.google.com"@,
            r@[3]@ == "o-o.myaddr.l.google.com"@,
            r@[4]@ == "TXT"@,
            r@[5]@ == "+short"@,
    {
        let mut command: Vec<String> = Vec::new();
        command.push(String::from_str("dig"));
        command.push(String::from_str("-4"));
        command.push(String::from_str("@ns1.google.com"));
        command.push(String::from_str("o-o.myaddr.l.google.com"));
        command.push(String::from_str("TXT"));
        command.push(String::from_str("+short"));
        command
    }
}

/// The resolver's per-tick decision logic. Running the lookup command and
/// capturing its output happen outside; what the captured outcome means is
/// decided here.
pub struct Dig {
    command: DigCommand,
}

impl Dig {
    pub fn new(command: DigCommand) -> (r: Self) {
        Self { command }
    }

    /// Extracts the address candidate from the lookup's text record output:
    /// the first maximal run of digits and dots, which strips the double
    /// quotes and trailing newline the lookup prints around it.
    pub fn drop_double_quotes(source: String) -> (r: String)
        ensures
            r@ == extracted(source@),
    {
        let text = source.as_str();
        let start = find_addr_start(text);
        let end = find_run_end(text, start);
        proof {
            assert(text@.subrange(start as int, end as int) =~= text@.skip(start as int).take(
                run_len(text@.skip(start as int))));
        }
        text.substring_char(start, end).to_owned()
    }

    /// One resolution step on the outcome of the external lookup: a failed
    /// lookup is passed through untouched; from a captured output the
    /// address candidate is extracted, and it is returned exactly when it
    /// is a valid dotted quad, refused as not valid otherwise.
    pub fn get_ip_addr(&self, fetched: Result<String, DnsError>) -> (r: Result<String, DnsError>)
        ensures
            match fetched {
                Err(e) => r matches Err(e2) && e2 == e,
                Ok(raw) => if valid_ipv4(extracted(raw@)) {
                    r matches Ok(ip) && ip@ == extracted(raw@)
                } else {
                    r matches Err(e) && e matches DnsError::IpNotValid(t) && t@ == extracted(
                        raw@,
                    )
                },
            },
    {
        match fetched {
            Err(e) => Err(e),
            Ok(raw) => {
                let ip_addr = Self::drop_double_quotes(raw);
                if validate(ip_addr.as_str()) {
                    Ok(ip_addr)
                } else {
                    Err(DnsError::IpNotValid(ip_addr))
                }
            },
        }
    }
}

} // verus!
