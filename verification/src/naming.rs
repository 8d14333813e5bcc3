//! The on-disk names: a segment's files carry its base offset as exactly
//! twenty decimal digits, and a partition's directory joins the base
//! directory, the topic name and the partition id.

use vstd::prelude::*;
use vstd::string::StringExecFns;

verus! {

/// The file name suffix of a segment's log image.
pub const LOG_FILE_SUFFIX: &'static str = ".log";

/// The file name suffix of a segment's index image.
pub const INDEX_FILE_SUFFIX: &'static str = ".index";

/// The character of one decimal digit.
pub open spec fn spec_digit_char(d: int) -> char {
    if d == 0 {
        '0'
    } else if d == 1 {
        '1'
    } else if d == 2 {
        '2'
    } else if d == 3 {
        '3'
    } else if d == 4 {
        '4'
    } else if d == 5 {
        '5'
    } else if d == 6 {
        '6'
    } else if d == 7 {
        '7'
    } else if d == 8 {
        '8'
    } else {
        '9'
    }
}

/// Ten to the power `e`.
pub open spec fn spec_pow10(e: nat) -> int
    decreases e,
{
    if e == 0 {
        1
    } else {
        10 * spec_pow10((e - 1) as nat)
    }
}

/// Powers of ten are positive.
pub proof fn lemma_pow10_pos(e: nat)
    ensures
        spec_pow10(e) >= 1,
    decreases e,
{
    if e > 0 {
        lemma_pow10_pos((e - 1) as nat);
    }
}

/// A base offset as exactly twenty decimal digits, most significant
/// first, zero-padded.
pub open spec fn spec_padded_offset(n: u64) -> Seq<char> {
    Seq::new(20, |i: int| spec_digit_char((n as int / spec_pow10((19 - i) as nat)) % 10))
}

/// The decimal digits of a number, most significant first, no padding.
pub open spec fn spec_decimal(n: nat) -> Seq<char>
    decreases n,
{
    if n < 10 {
        seq![spec_digit_char(n as int)]
    } else {
        spec_decimal(n / 10).push(spec_digit_char((n % 10) as int))
    }
}

/// Append one digit character.
fn append_digit(s: &mut String, d: u64)
    requires
        d < 10,
    ensures
        final(s)@ == old(s)@.push(spec_digit_char(d as int)),
{
    if d == 0 {
        s.append("0");
        proof {
            reveal_strlit("0");
            assert(old(s)@ + "0"@ =~= old(s)@.push('0'));
        }
    } else if d == 1 {
        s.append("1");
        proof {
            reveal_strlit("1");
            assert(old(s)@ + "1"@ =~= old(s)@.push('1'));
        }
    } else if d == 2 {
        s.append("2");
        proof {
            reveal_strlit("2");
            assert(old(s)@ + "2"@ =~= old(s)@.push('2'));
        }
    } else if d == 3 {
        s.append("3");
        proof {
            reveal_strlit("3");
            assert(old(s)@ + "3"@ =~= old(s)@.push('3'));
        }
    } else if d == 4 {
        s.append("4");
        proof {
            reveal_strlit("4");
            assert(old(s)@ + "4"@ =~= old(s)@.push('4'));
        }
    } else if d == 5 {
        s.append("5");
        proof {
            reveal_strlit("5");
            assert(old(s)@ + "5"@ =~= old(s)@.push('5'));
        }
    } else if d == 6 {
        s.append("6");
        proof {
            reveal_strlit("6");
            assert(old(s)@ + "6"@ =~= old(s)@.push('6'));
        }
    } else if d == 7 {
        s.append("7");
        proof {
            reveal_strlit("7");
            assert(old(s)@ + "7"@ =~= old(s)@.push('7'));
        }
    } else if d == 8 {
        s.append("8");
        proof {
            reveal_strlit("8");
            assert(old(s)@ + "8"@ =~= old(s)@.push('8'));
        }
    } else {
        s.append("9");
        proof {
            reveal_strlit("9");
            assert(old(s)@ + "9"@ =~= old(s)@.push('9'));
        }
    }
}

/// A base offset formatted as exactly twenty decimal digits.
pub fn format_base_offset(base_offset: u64) -> (r: String)
    ensures
        r@ == spec_padded_offset(base_offset),
        r@.len() == 20,
{
    let mut s = String::new();
    let mut p: u64 = 10000000000000000000;
    let mut i: usize = 0;
    proof {
        reveal_with_fuel(spec_pow10, 21);
        assert(spec_pow10(19) == 10000000000000000000);
    }
    while i < 20
        invariant
            i <= 20,
            s@.len() == i,
            forall|j: int| 0 <= j < i ==> s@[j] == spec_padded_offset(base_offset)[j],
            i < 20 ==> p == spec_pow10((19 - i) as nat),
            p >= 1,
        decreases 20 - i,
    {
        let d = (base_offset / p) % 10;
        append_digit(&mut s, d);
        proof {
            assert(s@[i as int] == spec_padded_offset(base_offset)[i as int]);
        }
        if i < 19 {
            proof {
                lemma_pow10_pos((18 - i) as nat);
                assert(spec_pow10((19 - i) as nat) == 10 * spec_pow10((18 - i) as nat));
            }
            p = p / 10;
        }
        i = i + 1;
    }
    proof {
        assert(s@ =~= spec_padded_offset(base_offset));
    }
    s
}

/// The log file name of the segment starting at this base offset.
pub fn log_file_name(base_offset: u64) -> (r: String)
    ensures
        r@ == spec_padded_offset(base_offset) + ".log"@,
{
    let name = format_base_offset(base_offset);
    name.concat(".log")
}

/// The index file name of the segment starting at this base offset.
pub fn index_file_name(base_offset: u64) -> (r: String)
    ensures
        r@ == spec_padded_offset(base_offset) + ".index"@,
{
    let name = format_base_offset(base_offset);
    name.concat(".index")
}

/// The characters of the reversed digit list, most significant first.
pub open spec fn spec_chars_of_rev(rev: Seq<u64>) -> Seq<char> {
    Seq::new(rev.len() as nat, |j: int| spec_digit_char(rev[rev.len() - 1 - j] as int))
}

/// A number formatted as decimal digits, no padding.
pub fn format_u64(n: u64) -> (r: String)
    ensures
        r@ == spec_decimal(n as nat),
{
    let mut rev: Vec<u64> = Vec::new();
    let mut m: u64 = n;
    loop
        invariant_except_break
            rev@.len() == 0 ==> m == n,
            rev@.len() > 0 ==> m > 0,
            forall|j: int| 0 <= j < rev@.len() ==> (#[trigger] rev@[j]) < 10,
            rev@.len() > 0 ==> spec_decimal(n as nat) == spec_decimal(m as nat)
                + spec_chars_of_rev(rev@),
        ensures
            rev@.len() > 0,
            forall|j: int| 0 <= j < rev@.len() ==> (#[trigger] rev@[j]) < 10,
            spec_decimal(n as nat) == spec_chars_of_rev(rev@),
        decreases m,
    {
        let ghost old_m = m;
        let ghost old_rev = rev@;
        rev.push(m % 10);
        m = m / 10;
        proof {
            assert(spec_chars_of_rev(rev@) =~= seq![spec_digit_char((old_m % 10) as int)]
                + spec_chars_of_rev(old_rev));
            if old_m >= 10 {
                assert(spec_decimal(old_m as nat) == spec_decimal((old_m / 10) as nat).push(
                    spec_digit_char((old_m % 10) as int),
                ));
                assert(spec_decimal(n as nat) =~= spec_decimal(m as nat) + spec_chars_of_rev(
                    rev@,
                ));
            } else {
                assert(spec_decimal(old_m as nat) == seq![spec_digit_char(old_m as int)]);
                assert(spec_decimal(n as nat) =~= spec_chars_of_rev(rev@));
            }
        }
        if m == 0 {
            break ;
        }
    }
    let mut s = String::new();
    let count = rev.len();
    let mut i: usize = 0;
    while i < count
        invariant
            i <= count,
            count == rev@.len(),
            count > 0,
            forall|j: int| 0 <= j < rev@.len() ==> (#[trigger] rev@[j]) < 10,
            spec_decimal(n as nat) == spec_chars_of_rev(rev@),
            s@.len() == i,
            forall|j: int| 0 <= j < i ==> s@[j] == spec_chars_of_rev(rev@)[j],
        decreases count - i,
    {
        append_digit(&mut s, rev[count - 1 - i]);
        i = i + 1;
    }
    proof {
        assert(s@ =~= spec_chars_of_rev(rev@));
    }
    s
}

/// The directory of one partition: the base directory, the topic name
/// and the partition id, joined as one path.
pub fn partition_dir(base_dir: &String, topic_name: &String, partition_id: usize) -> (r: String)
    ensures
        r@ == base_dir@ + "/"@ + topic_name@ + "-"@ + spec_decimal(partition_id as nat),
{
    let mut s = base_dir.clone();
    s.append("/");
    s.append(topic_name.as_str());
    s.append("-");
    let id = format_u64(partition_id as u64);
    s.append(id.as_str());
    proof {
        assert(s@ =~= base_dir@ + "/"@ + topic_name@ + "-"@ + spec_decimal(partition_id as nat));
    }
    s
}

} // verus!
