//! Small text functions shared by the log lines, sinks and probes.

use vstd::prelude::*;

verus! {

/// The character of a decimal digit.
pub open spec fn digit_char(d: nat) -> char {
    if d == 0 {
        '0'
    } else if d == 1 {
        '1'
    } else if d == 2 {
        '2'
    } else if d == 3 {
        '3'
    } else if d == 4 {
        '4'
    } else if d == 5 {
        '5'
    } else if d == 6 {
        '6'
    } else if d == 7 {
        '7'
    } else if d == 8 {
        '8'
    } else {
        '9'
    }
}

/// Decimal notation of a natural number, without leading zeros.
pub open spec fn decimal_text(n: nat) -> Seq<char>
    decreases n,
{
    if n < 10 {
        seq![digit_char(n)]
    } else {
        decimal_text(n / 10).push(digit_char(n % 10))
    }
}

fn digit_str(d: u64) -> (s: &'static str)
    requires
        d < 10,
    ensures
        s@ == seq![digit_char(d as nat)],
{
    proof {
        reveal_strlit("0");
        reveal_strlit("1");
        reveal_strlit("2");
        reveal_strlit("3");
        reveal_strlit("4");
        reveal_strlit("5");
        reveal_strlit("6");
        reveal_strlit("7");
        reveal_strlit("8");
        reveal_strlit("9");
    }
    let s = match d {
        0 => "0",
        1 => "1",
        2 => "2",
        3 => "3",
        4 => "4",
        5 => "5",
        6 => "6",
        7 => "7",
        8 => "8",
        _ => "9",
    };
    assert(s@ =~= seq![digit_char(d as nat)]);
    s
}

/// Writes a number in decimal notation.
pub fn decimal(n: u64) -> (s: String)
    ensures
        s@ == decimal_text(n as nat),
    decreases n,
{
    if n < 10 {
        String::from_str(digit_str(n))
    } else {
        let mut s = decimal(n / 10);
        s.append(digit_str(n % 10));
        assert(s@ =~= decimal_text((n / 10) as nat).push(digit_char((n % 10) as nat)));
        s
    }
}

/// Joins two texts.
pub fn concat2(a: &str, b: &str) -> (s: String)
    ensures
        s@ == a@ + b@,
{
    let mut s = String::from_str(a);
    s.append(b);
    s
}

/// Joins three texts.
pub fn concat3(a: &str, b: &str, c: &str) -> (s: String)
    ensures
        s@ == a@ + b@ + c@,
{
    let mut s = String::from_str(a);
    s.append(b);
    s.append(c);
    s
}

/// Whether a character ends a line.
pub open spec fn is_line_end(c: char) -> bool {
    c == '\r' || c == '\n'
}

/// A line without the carriage returns and line feeds at its end.
pub open spec fn trimmed(line: Seq<char>) -> Seq<char>
    decreases line.len(),
{
    if line.len() > 0 && is_line_end(line.last()) {
        trimmed(line.drop_last())
    } else {
        line
    }
}

/// Removes every carriage return and line feed from the end of a line.
pub fn trim_line_end(line: &str) -> (rest: &str)
    ensures
        rest@ == trimmed(line@),
{
    let mut end: usize = line.unicode_len();
    assert(line@.subrange(0, end as int) =~= line@);
    while end > 0 && (line.get_char(end - 1) == '\r' || line.get_char(end - 1) == '\n')
        invariant
            end <= line@.len(),
            trimmed(line@) == trimmed(line@.subrange(0, end as int)),
        decreases end,
    {
        proof {
            let cut = line@.subrange(0, end as int);
            assert(cut.last() == line@[end - 1]);
            assert(cut.drop_last() =~= line@.subrange(0, end - 1));
        }
        end -= 1;
    }
    proof {
        let cut = line@.subrange(0, end as int);
        if end > 0 {
            assert(cut.last() == line@[end - 1]);
        }
    }
    line.substring_char(0, end)
}

/// The parts of a list written one after the other with a separator
/// between them.
pub open spec fn joined(parts: Seq<Seq<char>>, sep: Seq<char>) -> Seq<char>
    decreases parts.len(),
{
    if parts.len() == 0 {
        Seq::empty()
    } else if parts.len() == 1 {
        parts[0]
    } else {
        joined(parts.drop_last(), sep) + sep + parts.last()
    }
}

/// Writes the strings of a list one after the other with a separator
/// between them.
pub fn join(list: &Vec<String>, sep: &str) -> (s: String)
    ensures
        s@ == joined(Seq::new(list@.len(), |i: int| list@[i]@), sep@),
{
    let ghost parts = Seq::new(list@.len(), |i: int| list@[i]@);
    let mut s = String::new();
    let mut i: usize = 0;
    while i < list.len()
        invariant
            i <= list.len(),
            parts == Seq::new(list@.len(), |i: int| list@[i]@),
            s@ == joined(parts.take(i as int), sep@),
        decreases list.len() - i,
    {
        if i > 0 {
            s.append(sep);
        }
        s.append(list[i].as_str());
        proof {
            let next = parts.take(i + 1);
            assert(next.drop_last() =~= parts.take(i as int));
            assert(next.last() == list@[i as int]@);
            if i == 0 {
                assert(s@ =~= next[0]);
            }
        }
        i += 1;
    }
    assert(parts.take(list.len() as int) =~= parts);
    s
}

/// Whether two texts are the same.
pub fn same_text(a: &str, b: &str) -> (same: bool)
    ensures
        same == (a@ == b@),
{
    let left = String::from_str(a);
    let right = String::from_str(b);
    left == right
}

/// Whether a list holds a text.
pub fn holds_text(list: &Vec<String>, text: &str) -> (found: bool)
    ensures
        found == Seq::new(list@.len(), |i: int| list@[i]@).contains(text@),
{
    let ghost views = Seq::new(list@.len(), |i: int| list@[i]@);
    let mut i: usize = 0;
    while i < list.len()
        invariant
            i <= list.len(),
            views == Seq::new(list@.len(), |i: int| list@[i]@),
            forall|k: int| 0 <= k < i ==> views[k] != text@,
        decreases list.len() - i,
    {
        if same_text(list[i].as_str(), text) {
            assert(views[i as int] == text@);
            return true;
        }
        i += 1;
    }
    false
}

} // verus!
