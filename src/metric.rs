//! The metric of a route as the API shows it: finite, or infinite for an unreachable
//! destination, and its JSON form.
use vstd::prelude::*;

use crate::decimal::{
    bytes_of, decimal, digits_value, is_digit, is_numeral, lemma_decimal, lemma_run_end_at,
    lemma_run_end_bounds, numeral_at, push_decimal, read_numeral, run_end,
};

verus! {

/// The cost of a route: a finite value (smaller is better) or infinite.
#[derive(Clone, Copy, Debug, PartialEq, Eq, Structural)]
pub enum Metric {
    /// Finite metric
    Value(u16),
    /// Infinite metric
    Infinite,
}

/// The JSON token of the infinite metric: the string `"infinite"`, quotes included.
pub open spec fn infinite_token() -> Seq<char> {
    seq!['"', 'i', 'n', 'f', 'i', 'n', 'i', 't', 'e', '"']
}

/// The JSON text of a metric: a finite one is the bare number, the infinite one the
/// string `"infinite"`.
pub open spec fn metric_json(m: Metric) -> Seq<char> {
    match m {
        Metric::Value(v) => decimal(v as nat),
        Metric::Infinite => infinite_token(),
    }
}

/// The metric that a JSON text denotes, if any: the token `"infinite"`, or a canonical
/// numeral of at most 65535 and nothing else.
pub open spec fn metric_from_json(s: Seq<char>) -> Option<Metric> {
    if s == infinite_token() {
        Some(Metric::Infinite)
    } else if run_end(s, 0) == s.len() {
        match numeral_at(s, 0, 65535) {
            Some(v) => Some(Metric::Value(v as u16)),
            None => None,
        }
    } else {
        None
    }
}

/// Reading back the JSON text of any metric gives that metric: the finite form keeps
/// its value and the infinite form stays told apart from every finite one.
pub proof fn lemma_metric_json_round_trip(m: Metric)
    ensures
        metric_from_json(metric_json(m)) == Some(m),
        m is Value ==> is_numeral(metric_json(m)) && digits_value(metric_json(m))
            == m->Value_0 as nat,
        m is Infinite ==> metric_json(m) == infinite_token(),
{
    match m {
        Metric::Value(v) => {
            let s = decimal(v as nat);
            lemma_decimal(v as nat);
            lemma_run_end_at(s, 0, s.len() as int);
            assert(s.subrange(0, s.len() as int) =~= s);
            assert(is_digit(s[0]));
            assert(s != infinite_token()) by {
                assert(infinite_token()[0] == '"');
            }
        },
        Metric::Infinite => {},
    }
}

impl Metric {
    /// The metric's JSON text.
    pub fn to_json(&self) -> (r: String)
        ensures
            r@ == metric_json(*self),
    {
        let mut out = String::new();
        match self {
            Metric::Value(v) => {
                push_decimal(&mut out, *v);
                assert(out@ =~= decimal(*v as nat));
            },
            Metric::Infinite => {
                proof {
                    reveal_strlit("\"infinite\"");
                }
                out.append("\"infinite\"");
                assert(out@ =~= infinite_token());
            },
        }
        out
    }

    /// Reads a metric from its JSON text.
    pub fn from_json(text: &str) -> (r: Option<Metric>)
        ensures
            r == metric_from_json(text@),
    {
        let ghost s = text@;
        if !text.is_ascii() {
            proof {
                let k = choose|k: int| 0 <= k < s.len() && !('\0' <= #[trigger] s[k] <= '\u{7f}');
                assert(s != infinite_token());
                if run_end(s, 0) == s.len() {
                    lemma_run_end_bounds(s, 0);
                    assert(is_digit(s[k]));
                }
            }
            return None;
        }
        let b = text.as_bytes();
        proof {
            broadcast use vstd::string::is_ascii_spec_bytes;

            assert(bytes_of(b@, s));
        }
        if b.len() == 10 && b[0] == 34 && b[1] == 105 && b[2] == 110 && b[3] == 102 && b[4] == 105
            && b[5] == 110 && b[6] == 105 && b[7] == 116 && b[8] == 101 && b[9] == 34 {
            assert(s =~= infinite_token());
            return Some(Metric::Infinite);
        }
        proof {
            if s == infinite_token() {
                assert(b@[0] == s[0] as u8);
                assert(b@[9] == s[9] as u8);
            }
        }
        let (end, value) = read_numeral(b, 0, 65535, Ghost(s));
        if end != b.len() {
            return None;
        }
        match value {
            Some(v) => Some(Metric::Value(v as u16)),
            None => None,
        }
    }
}

} // verus!
