//! How a [`ReadUntil`] reads to a person.

use crate::hay::{MatchSpec, ReadUntil};
use vstd::prelude::*;
use vstd::string::{StrSliceExecFns, StringExecFns};

verus! {

/// The decimal digit for `d`.
pub open spec fn digit_of(d: nat) -> char
    recommends
        d < 10,
{
    if d == 0 {
        '0'
    } else if d == 1 {
        '1'
    } else if d == 2 {
        '2'
    } else if d == 3 {
        '3'
    } else if d == 4 {
        '4'
    } else if d == 5 {
        '5'
    } else if d == 6 {
        '6'
    } else if d == 7 {
        '7'
    } else if d == 8 {
        '8'
    } else {
        '9'
    }
}

/// `n` in decimal, without leading zeros.
pub open spec fn decimal(n: nat) -> Seq<char>
    decreases n,
{
    if n < 10 {
        seq![digit_of(n)]
    } else {
        decimal(n / 10).push(digit_of(n % 10))
    }
}

/// The texts of `parts`, with `separator` between each two.
pub open spec fn joined(parts: Seq<Seq<char>>, separator: Seq<char>) -> Seq<char>
    decreases parts.len(),
{
    if parts.len() == 0 {
        Seq::empty()
    } else if parts.len() == 1 {
        parts[0]
    } else {
        joined(parts.drop_last(), separator) + separator + parts.last()
    }
}

/// What each member of `members` reads as, in the members' order.
pub open spec fn descriptions_of(members: Seq<MatchSpec>) -> Seq<Seq<char>>
    decreases members, 0nat,
{
    Seq::new(
        members.len(),
        |i: int|
            if 0 <= i < members.len() {
                describe_spec(members[i])
            } else {
                Seq::empty()
            },
    )
}

/// How `needle` reads to a person.
///
/// A text stands in double quotes, but a lone line feed or carriage return is
/// spelled out. A pattern shows the text it was compiled from. Alternatives
/// are listed with commas between them.
pub open spec fn describe_spec(needle: MatchSpec) -> Seq<char>
    decreases needle, 1nat,
{
    match needle {
        MatchSpec::Literal(text) => if text == seq!['\n'] {
            "\\n (newline)"@
        } else if text == seq!['\r'] {
            "\\r (carriage return)"@
        } else {
            "\""@ + text + "\""@
        },
        MatchSpec::Pattern(source) => "Regex: \""@ + source + "\""@,
        MatchSpec::EndOfStream => "EOF (End of File)"@,
        MatchSpec::ByteCount(n) => "reading "@ + decimal(n) + " bytes"@,
        MatchSpec::Alternatives(members) => joined(descriptions_of(members), ", "@),
    }
}

/// The decimal digit for `d`, as a text of one character.
fn digit_text(d: usize) -> (text: &'static str)
    requires
        d < 10,
    ensures
        text@ == seq![digit_of(d as nat)],
{
    proof {
        reveal_strlit("0");
        reveal_strlit("1");
        reveal_strlit("2");
        reveal_strlit("3");
        reveal_strlit("4");
        reveal_strlit("5");
        reveal_strlit("6");
        reveal_strlit("7");
        reveal_strlit("8");
        reveal_strlit("9");
    }
    if d == 0 {
        "0"
    } else if d == 1 {
        "1"
    } else if d == 2 {
        "2"
    } else if d == 3 {
        "3"
    } else if d == 4 {
        "4"
    } else if d == 5 {
        "5"
    } else if d == 6 {
        "6"
    } else if d == 7 {
        "7"
    } else if d == 8 {
        "8"
    } else {
        "9"
    }
}

/// Writes `n` in decimal.
pub fn decimal_text(n: usize) -> (text: String)
    ensures
        text@ == decimal(n as nat),
    decreases n,
{
    if n < 10 {
        String::from_str(digit_text(n))
    } else {
        let mut text = decimal_text(n / 10);
        text.append(digit_text(n % 10));
        text
    }
}

impl ReadUntil {
    /// How this reads to a person.
    pub fn describe(&self) -> (text: String)
        ensures
            text@ == describe_spec(self@),
        decreases self,
    {
        match self {
            ReadUntil::String(wanted) => {
                let wanted = wanted.as_str();
                if wanted.unicode_len() == 1 && wanted.get_char(0) == '\n' {
                    assert(wanted@ =~= seq!['\n']);
                    String::from_str("\\n (newline)")
                } else if wanted.unicode_len() == 1 && wanted.get_char(0) == '\r' {
                    assert(wanted@ =~= seq!['\r']);
                    String::from_str("\\r (carriage return)")
                } else {
                    let mut text = String::from_str("\"");
                    text.append(wanted);
                    text.append("\"");
                    text
                }
            },
            ReadUntil::Regex(pattern) => {
                let mut text = String::from_str("Regex: \"");
                text.append(pattern.as_str());
                text.append("\"");
                text
            },
            ReadUntil::EOF => String::from_str("EOF (End of File)"),
            ReadUntil::NBytes(n) => {
                let mut text = String::from_str("reading ");
                let count = decimal_text(*n);
                text.append(count.as_str());
                text.append(" bytes");
                text
            },
            ReadUntil::Any(members) => {
                let ghost parts = descriptions_of(self@->Alternatives_0);
                let mut text = String::new();
                let mut i: usize = 0;
                while i < members.len()
                    invariant
                        *self == ReadUntil::Any(*members),
                        parts == descriptions_of(self@->Alternatives_0),
                        parts.len() == members.len(),
                        forall|j: int|
                            0 <= j < members.len() ==> parts[j] == describe_spec(
                                #[trigger] members[j]@,
                            ),
                        i <= members.len(),
                        text@ == joined(parts.take(i as int), ", "@),
                    decreases members.len() - i,
                {
                    let part = members[i].describe();
                    if i > 0 {
                        text.append(", ");
                    }
                    text.append(part.as_str());
                    assert(parts.take(i + 1).drop_last() =~= parts.take(i as int));
                    i = i + 1;
                }
                assert(parts.take(members.len() as int) =~= parts);
                text
            },
        }
    }
}

} // verus!
