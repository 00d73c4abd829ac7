use vstd::prelude::*;
use vstd::string::*;

use crate::digits::{dec_value, lemma_dec_value_bounds, parse_u64_digits, u64_text};
use crate::error::Error;

verus! {

/// What looking one key up in the process environment yielded. The read
/// itself happens outside; the decisions taken on its outcome live here.
#[derive(Debug, PartialEq)]
pub enum EnvValue {
    /// The key is set to this text.
    Present(String),
    /// The key is not set at all.
    Missing,
    /// The key is set, but its value is not valid text.
    NotText,
}

/// Index of the first comma of the text, or its length when it has none.
pub open spec fn first_comma(s: Seq<char>) -> int
    decreases s.len(),
{
    if s.len() == 0 {
        0
    } else if s[0] == ',' {
        0
    } else {
        1 + first_comma(s.drop_first())
    }
}

/// A position with no comma before it, at which the text ends or holds a
/// comma, is the first comma position.
proof fn lemma_first_comma_is(s: Seq<char>, k: int)
    requires
        0 <= k <= s.len(),
        forall|j: int| 0 <= j < k ==> s[j] != ',',
        k < s.len() ==> s[k] == ',',
    ensures
        first_comma(s) == k,
    decreases k,
{
    if s.len() == 0 {
    } else if s[0] == ',' {
        assert(k == 0);
    } else {
        assert(k > 0) by {
            assert(s[0] != ',');
        }
        assert forall|j: int| 0 <= j < k - 1 implies s.drop_first()[j] != ',' by {
            assert(s.drop_first()[j] == s[j + 1]);
        }
        if k - 1 < s.drop_first().len() {
            assert(s.drop_first()[k - 1] == s[k]);
        }
        lemma_first_comma_is(s.drop_first(), k - 1);
    }
}

/// The comma-separated pieces of the text, in order. An empty text has one
/// empty piece, and a leading, trailing or doubled comma yields an empty
/// piece in the corresponding place.
pub open spec fn split_commas(s: Seq<char>) -> Seq<Seq<char>>
    decreases s.len(),
{
    let i = first_comma(s);
    if 0 <= i < s.len() {
        seq![s.take(i)] + split_commas(s.skip(i + 1))
    } else {
        seq![s]
    }
}

/// Every comma-separated piece is a plain decimal that fits in a `u64`.
pub open spec fn channel_list_text(s: Seq<char>) -> bool {
    forall|i: int|
        0 <= i < split_commas(s).len() ==> u64_text(#[trigger] split_commas(s)[i])
}

/// The numbers the comma-separated pieces denote, in order.
pub open spec fn channel_ids(s: Seq<char>) -> Seq<u64> {
    Seq::new(split_commas(s).len(), |i: int| dec_value(split_commas(s)[i]) as u64)
}

/// Position of the first comma, together with the knowledge that nothing
/// before it is one.
fn find_comma(text: &str) -> (r: Option<usize>)
    ensures
        match r {
            Some(p) => p < text@.len() && text@[p as int] == ','
                && forall|j: int| 0 <= j < p ==> text@[j] != ',',
            None => forall|j: int| 0 <= j < text@.len() ==> text@[j] != ',',
        },
{
    let n = text.unicode_len();
    let mut i: usize = 0;
    while i < n
        invariant
            i <= n == text@.len(),
            forall|j: int| 0 <= j < i ==> text@[j] != ',',
        decreases n - i,
    {
        if text.get_char(i) == ',' {
            return Some(i);
        }
        i = i + 1;
    }
    None
}

/// Reads a comma-separated list of decimals. Accepts exactly the texts whose
/// every piece is a nonempty digit run fitting in a `u64`.
pub fn parse_id_list(value: &str) -> (r: Option<Vec<u64>>)
    ensures
        channel_list_text(value@) ==> (r matches Some(v) && v@ == channel_ids(value@)),
        !channel_list_text(value@) ==> r is None,
    decreases value@.len(),
{
    match find_comma(value) {
        None => {
            proof {
                lemma_first_comma_is(value@, value@.len() as int);
                assert(split_commas(value@) =~= seq![value@]);
            }
            match parse_u64_digits(value) {
                Some(head) => {
                    let mut v: Vec<u64> = Vec::new();
                    v.push(head);
                    proof {
                        assert(v@ =~= channel_ids(value@));
                    }
                    Some(v)
                },
                None => {
                    proof {
                        assert(split_commas(value@)[0] == value@);
                    }
                    None
                },
            }
        },
        Some(p) => {
            let n = value.unicode_len();
            proof {
                lemma_first_comma_is(value@, p as int);
            }
            let ghost head_seq = value@.take(p as int);
            let ghost rest_seq = value@.skip(p as int + 1);
            proof {
                assert(split_commas(value@) =~= seq![head_seq] + split_commas(rest_seq));
                assert(split_commas(value@)[0] == head_seq);
                assert(forall|i: int|
                    0 <= i < split_commas(rest_seq).len() ==> split_commas(value@)[i + 1]
                        == #[trigger] split_commas(rest_seq)[i]);
            }
            let head_str = value.substring_char(0, p);
            let rest_str = value.substring_char(p + 1, n);
            match parse_u64_digits(head_str) {
                None => None,
                Some(head) => match parse_id_list(rest_str) {
                    None => None,
                    Some(tail) => {
                        let mut v: Vec<u64> = Vec::new();
                        v.push(head);
                        let mut tail = tail;
                        v.append(&mut tail);
                        proof {
                            if channel_list_text(value@) {
                                assert(v@ =~= channel_ids(value@));
                            }
                            if channel_list_text(rest_seq) && u64_text(head_seq) {
                                assert(channel_list_text(value@)) by {
                                    assert(forall|i: int|
                                        1 <= i < split_commas(value@).len()
                                            ==> #[trigger] split_commas(value@)[i]
                                            == split_commas(rest_seq)[i - 1]);
                                }
                            }
                        }
                        Some(v)
                    },
                },
            }
        },
    }
}

/// A plain decimal denoting a positive number that fits in a `u64`: the
/// only texts admitted as a polling period.
pub open spec fn period_text(s: Seq<char>) -> bool {
    u64_text(s) && dec_value(s) > 0
}

/// Reads the polling period: the denoted number when the text is a plain
/// decimal denoting a positive value that fits in a `u64`; the named key's
/// invalidity otherwise. The period must be positive, so zero is refused
/// like any other malformed value.
pub fn parse_check_frequency(key: &str, value: &str) -> (r: Result<u64, Error>)
    ensures
        period_text(value@) ==> r == Ok::<u64, Error>(dec_value(value@) as u64),
        !period_text(value@) ==> (r matches Err(e) && e matches Error::VarNotValid(k) && k@
            == key@),
{
    proof {
        if u64_text(value@) {
            lemma_dec_value_bounds(value@);
        }
    }
    match parse_u64_digits(value) {
        Some(n) => {
            if n > 0 {
                Ok(n)
            } else {
                Err(Error::VarNotValid(key.to_owned()))
            }
        },
        None => Err(Error::VarNotValid(key.to_owned())),
    }
}

/// Reads the destination list: the numbers in configured order when every
/// comma-separated piece is a plain decimal, the named key's invalidity
/// otherwise.
pub fn parse_channel_id(key: &str, value: &str) -> (r: Result<Vec<u64>, Error>)
    ensures
        channel_list_text(value@) ==> (r matches Ok(v) && v@ == channel_ids(value@)),
        !channel_list_text(value@) ==> (r matches Err(e) && e matches Error::VarNotValid(k)
            && k@ == key@),
{
    match parse_id_list(value) {
        Some(v) => Ok(v),
        None => Err(Error::VarNotValid(key.to_owned())),
    }
}

/// Whether the frequency key read admits a period: an absent key does (the
/// default applies), a set one only when it holds a plain positive decimal
/// — a set but malformed, non-positive or non-text value is a fatal
/// configuration error, reported before the pipeline starts.
pub open spec fn frequency_ok(v: &EnvValue) -> bool {
    match v {
        EnvValue::Present(s) => period_text(s@),
        EnvValue::Missing => true,
        EnvValue::NotText => false,
    }
}

/// The polling period chosen from an admissible frequency key read: the
/// denoted number when the key is set, the default of 300 seconds when it
/// is absent.
pub open spec fn chosen_frequency(v: &EnvValue) -> int {
    match v {
        EnvValue::Present(s) => dec_value(s@),
        _ => 300,
    }
}

/// The settings the pipeline starts from: polling period in seconds, the
/// credential for the delivery transport, and the ordered destination list.
#[derive(Debug)]
pub struct Config {
    pub check_frequency: u64,
    pub discord_token: String,
    pub channel_id: Vec<u64>,
}

impl Config {
    pub fn new(check_frequency: u64, discord_token: String, channel_id: Vec<u64>) -> (r: Self)
        ensures
            r.check_frequency == check_frequency,
            r.discord_token == discord_token,
            r.channel_id == channel_id,
    {
        Self { check_frequency, discord_token, channel_id }
    }

    /// Decides the configuration from what the environment held for the
    /// three keys. Any set but malformed value is fatal: the frequency key
    /// is examined first (when absent the default period applies), then
    /// the token, then the destination list.
    pub fn from_env(
        check_frequency: &EnvValue,
        discord_token: &EnvValue,
        channel_id: &EnvValue,
    ) -> (r: Result<Config, Error>)
        ensures
            !frequency_ok(check_frequency) ==> (r matches Err(e)
                && e matches Error::VarNotValid(k) && k@ == "CHECK_FREQUENCY"@),
            (frequency_ok(check_frequency) && discord_token
                matches EnvValue::Missing) ==> (r matches Err(e)
                && e matches Error::VarNotPresent(k) && k@ == "DISCORD_TOKEN"@),
            (frequency_ok(check_frequency) && discord_token
                matches EnvValue::NotText) ==> (r matches Err(e)
                && e matches Error::VarNotValid(k) && k@ == "DISCORD_TOKEN"@),
            (frequency_ok(check_frequency) && (discord_token
                matches EnvValue::Present(_) && channel_id
                matches EnvValue::Missing)) ==> (r matches Err(e)
                && e matches Error::VarNotPresent(k) && k@ == "CHANNEL_ID"@),
            (frequency_ok(check_frequency) && (discord_token
                matches EnvValue::Present(_) && channel_id
                matches EnvValue::NotText)) ==> (r matches Err(e)
                && e matches Error::VarNotValid(k) && k@ == "CHANNEL_ID"@),
            (frequency_ok(check_frequency) && (discord_token
                matches EnvValue::Present(_) && channel_id
                matches EnvValue::Present(s) && !channel_list_text(s@))) ==> (r matches Err(e)
                && e matches Error::VarNotValid(k) && k@ == "CHANNEL_ID"@),
            (match (discord_token, channel_id) {
                (EnvValue::Present(t), EnvValue::Present(s)) => (frequency_ok(check_frequency)
                    && channel_list_text(s@)) ==> (r matches Ok(c) && c.check_frequency
                    == chosen_frequency(check_frequency) && c.check_frequency > 0
                    && c.discord_token@ == t@ && c.channel_id@ == channel_ids(s@)),
                _ => true,
            }),
    {
        let cf: u64 = match check_frequency {
            EnvValue::Present(s) => {
                proof {
                    if u64_text(s@) {
                        lemma_dec_value_bounds(s@);
                    }
                }
                match parse_check_frequency("CHECK_FREQUENCY", s.as_str()) {
                    Ok(n) => n,
                    Err(e) => {
                        return Err(e);
                    },
                }
            },
            EnvValue::Missing => 300,
            EnvValue::NotText => {
                return Err(Error::VarNotValid("CHECK_FREQUENCY".to_owned()));
            },
        };
        let token: String = match discord_token {
            EnvValue::Present(s) => s.clone(),
            EnvValue::Missing => {
                return Err(Error::VarNotPresent("DISCORD_TOKEN".to_owned()));
            },
            EnvValue::NotText => {
                return Err(Error::VarNotValid("DISCORD_TOKEN".to_owned()));
            },
        };
        let ids: Vec<u64> = match channel_id {
            EnvValue::Present(s) => match parse_id_list(s.as_str()) {
                Some(v) => v,
                None => {
                    return Err(Error::VarNotValid("CHANNEL_ID".to_owned()));
                },
            },
            EnvValue::Missing => {
                return Err(Error::VarNotPresent("CHANNEL_ID".to_owned()));
            },
            EnvValue::NotText => {
                return Err(Error::VarNotValid("CHANNEL_ID".to_owned()));
            },
        };
        Ok(Config { check_frequency: cf, discord_token: token, channel_id: ids })
    }
}

} // verus!
