//! Parsing of the plaintext command protocols: whitespace-delimited client
//! commands (`read`, `write`, `delete`) and management commands
//! (`break_link`, `restore_links`, `get_links`).
use vstd::prelude::*;
use crate::coordinator::Event;
use crate::kv::KeyValue;
use crate::links::ManCommand;

verus! {

/// The whitespace that separates command tokens.
pub open spec fn is_ws(c: char) -> bool {
    c == ' ' || c == '\t' || c == '\n' || c == '\r'
}

/// Left-to-right tokenization: `cur` is the token being gathered, `acc` the
/// tokens already complete.
pub open spec fn tokens_from(s: Seq<char>, cur: Seq<char>, acc: Seq<Seq<char>>) -> Seq<Seq<char>>
    decreases s.len(),
{
    if s.len() == 0 {
        if cur.len() == 0 {
            acc
        } else {
            acc.push(cur)
        }
    } else if is_ws(s[0]) {
        if cur.len() == 0 {
            tokens_from(s.drop_first(), Seq::<char>::empty(), acc)
        } else {
            tokens_from(s.drop_first(), Seq::<char>::empty(), acc.push(cur))
        }
    } else {
        tokens_from(s.drop_first(), cur.push(s[0]), acc)
    }
}

/// The whitespace-delimited tokens of `s`, in order, each non-empty.
pub open spec fn tokens(s: Seq<char>) -> Seq<Seq<char>> {
    tokens_from(s, Seq::<char>::empty(), Seq::<Seq<char>>::empty())
}

/// The views of a list of owned tokens.
pub open spec fn views_of(ts: Seq<String>) -> Seq<Seq<char>> {
    ts.map_values(|t: String| t@)
}

fn is_ws_char(c: char) -> (r: bool)
    ensures
        r == is_ws(c),
{
    c == ' ' || c == '\t' || c == '\n' || c == '\r'
}

/// Split `s` at whitespace into its tokens.
pub fn split_whitespace_tokens(s: &str) -> (r: Vec<String>)
    ensures
        views_of(r@) == tokens(s@),
{
    let n = s.unicode_len();
    let mut r: Vec<String> = Vec::new();
    let mut i: usize = 0;
    let mut start: usize = 0;
    let mut in_tok: bool = false;
    proof {
        assert(s@.skip(0) =~= s@);
        assert(views_of(r@) =~= Seq::<Seq<char>>::empty());
    }
    while i < n
        invariant
            n == s@.len(),
            i <= n,
            in_tok ==> start < i,
            tokens(s@) == tokens_from(
                s@.skip(i as int),
                if in_tok {
                    s@.subrange(start as int, i as int)
                } else {
                    Seq::<char>::empty()
                },
                views_of(r@),
            ),
        decreases n - i,
    {
        let ghost tail = s@.skip(i as int);
        proof {
            assert(tail[0] == s@[i as int]);
            assert(tail.drop_first() =~= s@.skip(i + 1));
        }
        let c = s.get_char(i);
        if is_ws_char(c) {
            if in_tok {
                let t = s.substring_char(start, i).to_owned();
                proof {
                    assert(views_of(r@.push(t)) =~= views_of(r@).push(
                        s@.subrange(start as int, i as int),
                    ));
                }
                r.push(t);
                in_tok = false;
            }
        } else {
            if !in_tok {
                start = i;
                in_tok = true;
                proof {
                    assert(Seq::<char>::empty().push(s@[i as int]) =~= s@.subrange(
                        start as int,
                        i + 1,
                    ));
                }
            } else {
                proof {
                    assert(s@.subrange(start as int, i as int).push(s@[i as int]) =~= s@.subrange(
                        start as int,
                        i + 1,
                    ));
                }
            }
        }
        i += 1;
    }
    proof {
        assert(s@.skip(n as int).len() == 0);
    }
    if in_tok {
        let t = s.substring_char(start, n).to_owned();
        proof {
            assert(views_of(r@.push(t)) =~= views_of(r@).push(s@.subrange(start as int, n as int)));
        }
        r.push(t);
    }
    r
}

/// A decimal digit.
pub open spec fn is_digit(c: char) -> bool {
    48 <= c as int <= 57
}

/// The numeric value of one digit.
pub open spec fn digit_val(c: char) -> int {
    c as int - 48
}

/// A non-empty, all-digit token.
pub open spec fn all_digits(s: Seq<char>) -> bool {
    s.len() > 0 && forall|i: int| 0 <= i < s.len() ==> is_digit(s[i])
}

/// The value of a digit string, most significant digit first.
pub open spec fn digits_val(s: Seq<char>) -> int
    decreases s.len(),
{
    if s.len() == 0 {
        0
    } else {
        digits_val(s.drop_last()) * 10 + digit_val(s.last())
    }
}

/// What a node-identifier token denotes: its decimal value, when the token
/// is nothing but digits and the value fits.
pub open spec fn parse_u64_spec(s: Seq<char>) -> Option<u64> {
    if all_digits(s) && digits_val(s) <= u64::MAX {
        Some(digits_val(s) as u64)
    } else {
        None
    }
}

proof fn lemma_digits_val_nonneg(s: Seq<char>)
    requires
        forall|i: int| 0 <= i < s.len() ==> is_digit(s[i]),
    ensures
        digits_val(s) >= 0,
    decreases s.len(),
{
    if s.len() > 0 {
        lemma_digits_val_nonneg(s.drop_last());
    }
}

proof fn lemma_digits_val_mono(s: Seq<char>, i: int)
    requires
        0 <= i <= s.len(),
        forall|j: int| 0 <= j < s.len() ==> is_digit(s[j]),
    ensures
        digits_val(s.take(i)) <= digits_val(s),
    decreases s.len() - i,
{
    if i < s.len() {
        lemma_digits_val_mono(s, i + 1);
        assert(s.take(i + 1).drop_last() =~= s.take(i));
        assert(s.take(i + 1).last() == s[i]);
        assert(forall|j: int| 0 <= j < s.take(i).len() ==> is_digit(s.take(i)[j]));
        lemma_digits_val_nonneg(s.take(i));
    } else {
        assert(s.take(i) =~= s);
    }
}

/// Parse a decimal `u64`, rejecting anything but digits and values that do
/// not fit.
pub fn parse_u64(t: &str) -> (r: Option<u64>)
    ensures
        r == parse_u64_spec(t@),
{
    let n = t.unicode_len();
    if n == 0 {
        return None;
    }
    let mut acc: u64 = 0;
    let mut i: usize = 0;
    while i < n
        invariant
            n == t@.len(),
            0 < n,
            i <= n,
            forall|j: int| 0 <= j < i ==> is_digit(t@[j]),
            acc == digits_val(t@.take(i as int)),
        decreases n - i,
    {
        let c = t.get_char(i);
        let cu = c as u32;
        if cu < 48 || cu > 57 {
            proof {
                assert(!is_digit(t@[i as int]));
            }
            return None;
        }
        let d: u64 = (cu - 48) as u64;
        proof {
            assert(d == digit_val(t@[i as int]));
            assert(t@.take(i + 1).drop_last() =~= t@.take(i as int));
            assert(t@.take(i + 1).last() == t@[i as int]);
        }
        let next = match acc.checked_mul(10) {
            Some(x) => x.checked_add(d),
            None => None,
        };
        match next {
            Some(x) => {
                acc = x;
            },
            None => {
                proof {
                    assert(digits_val(t@.take(i + 1)) > u64::MAX);
                    if all_digits(t@) {
                        lemma_digits_val_mono(t@, i + 1);
                    }
                }
                return None;
            },
        }
        i += 1;
    }
    proof {
        assert(t@.take(n as int) =~= t@);
    }
    Some(acc)
}

/// What a client command line denotes, over the views of its tokens.
pub enum ClientCmd {
    /// `read <key>`: answer with the most recently decided value for the key.
    Read { key: Seq<char> },
    /// `write <key> <value>`, or `delete <key>` as a write of the empty
    /// string; a missing key or value stands in as empty.
    Write { key: Seq<char>, value: Seq<char> },
}

/// The client command a line of text denotes: the first token picks the
/// verb; an unknown verb, an empty line, or a bare `read` denotes nothing.
/// Tokens beyond those consumed are ignored.
pub open spec fn parse_client_spec(s: Seq<char>) -> Option<ClientCmd> {
    let ts = tokens(s);
    if ts.len() == 0 {
        None
    } else if ts[0] == "read"@ {
        if ts.len() >= 2 {
            Some(ClientCmd::Read { key: ts[1] })
        } else {
            None
        }
    } else if ts[0] == "write"@ {
        Some(
            ClientCmd::Write {
                key: if ts.len() >= 2 {
                    ts[1]
                } else {
                    Seq::<char>::empty()
                },
                value: if ts.len() >= 3 {
                    ts[2]
                } else {
                    Seq::<char>::empty()
                },
            },
        )
    } else if ts[0] == "delete"@ {
        Some(
            ClientCmd::Write {
                key: if ts.len() >= 2 {
                    ts[1]
                } else {
                    Seq::<char>::empty()
                },
                value: Seq::<char>::empty(),
            },
        )
    } else {
        None
    }
}

/// Whether an event is the one a parsed client command asks for.
pub open spec fn event_matches(ev: Event, c: ClientCmd) -> bool {
    match c {
        ClientCmd::Read { key } => ev matches Event::ClientRead(k) && k@ == key,
        ClientCmd::Write { key, value } => ev matches Event::ClientWrite(kv) && kv.key@ == key
            && kv.value@ == value,
    }
}

/// Parse one client command line into the coordinator event it asks for.
pub fn parse_client_command(s: &str) -> (r: Option<Event>)
    ensures
        match r {
            Some(ev) => parse_client_spec(s@) matches Some(c) && event_matches(ev, c),
            None => parse_client_spec(s@) is None,
        },
{
    let ts = split_whitespace_tokens(s);
    proof {
        assert(views_of(ts@) == tokens(s@));
    }
    if ts.len() == 0 {
        return None;
    }
    proof {
        assert(tokens(s@)[0] == ts@[0]@);
    }
    if crate::kv::str_eq(ts[0].as_str(), "read") {
        if ts.len() >= 2 {
            proof {
                assert(tokens(s@)[1] == ts@[1]@);
            }
            Some(Event::ClientRead(ts[1].clone()))
        } else {
            None
        }
    } else if crate::kv::str_eq(ts[0].as_str(), "write") {
        let key = if ts.len() >= 2 {
            proof {
                assert(tokens(s@)[1] == ts@[1]@);
            }
            ts[1].clone()
        } else {
            String::new()
        };
        let value = if ts.len() >= 3 {
            proof {
                assert(tokens(s@)[2] == ts@[2]@);
            }
            ts[2].clone()
        } else {
            String::new()
        };
        Some(Event::ClientWrite(KeyValue { key, value }))
    } else if crate::kv::str_eq(ts[0].as_str(), "delete") {
        let key = if ts.len() >= 2 {
            proof {
                assert(tokens(s@)[1] == ts@[1]@);
            }
            ts[1].clone()
        } else {
            String::new()
        };
        Some(Event::ClientWrite(KeyValue { key, value: String::new() }))
    } else {
        None
    }
}

/// The management command a line of text denotes. `break_link` demands a
/// parseable node identifier; the other verbs take none. An unknown verb or
/// an empty line denotes nothing.
pub open spec fn parse_management_spec(s: Seq<char>) -> Option<ManCommand> {
    let ts = tokens(s);
    if ts.len() == 0 {
        None
    } else if ts[0] == "break_link"@ {
        if ts.len() >= 2 && parse_u64_spec(ts[1]) is Some {
            Some(ManCommand::BreakLink(parse_u64_spec(ts[1])->Some_0))
        } else {
            None
        }
    } else if ts[0] == "restore_links"@ {
        Some(ManCommand::RestoreLinks)
    } else if ts[0] == "get_links"@ {
        Some(ManCommand::GetLinks)
    } else {
        None
    }
}

/// Parse one management command line.
pub fn parse_management_command(s: &str) -> (r: Option<ManCommand>)
    ensures
        r == parse_management_spec(s@),
{
    let ts = split_whitespace_tokens(s);
    proof {
        assert(views_of(ts@) == tokens(s@));
    }
    if ts.len() == 0 {
        return None;
    }
    proof {
        assert(tokens(s@)[0] == ts@[0]@);
    }
    if crate::kv::str_eq(ts[0].as_str(), "break_link") {
        if ts.len() >= 2 {
            proof {
                assert(tokens(s@)[1] == ts@[1]@);
            }
            match parse_u64(ts[1].as_str()) {
                Some(n) => Some(ManCommand::BreakLink(n)),
                None => None,
            }
        } else {
            None
        }
    } else if crate::kv::str_eq(ts[0].as_str(), "restore_links") {
        Some(ManCommand::RestoreLinks)
    } else if crate::kv::str_eq(ts[0].as_str(), "get_links") {
        Some(ManCommand::GetLinks)
    } else {
        None
    }
}

} // verus!
