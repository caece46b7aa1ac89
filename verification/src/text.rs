//! Textual notation of numbers, flags and network addresses.

use crate::attribute::NetworkAddress;
use vstd::prelude::*;

verus! {

/// The character for one digit, in any base up to sixteen: `0` to `9`, then
/// `a` to `f`.
pub open spec fn digit_char(digit: int) -> char {
    if digit == 0 {
        '0'
    } else if digit == 1 {
        '1'
    } else if digit == 2 {
        '2'
    } else if digit == 3 {
        '3'
    } else if digit == 4 {
        '4'
    } else if digit == 5 {
        '5'
    } else if digit == 6 {
        '6'
    } else if digit == 7 {
        '7'
    } else if digit == 8 {
        '8'
    } else if digit == 9 {
        '9'
    } else if digit == 10 {
        'a'
    } else if digit == 11 {
        'b'
    } else if digit == 12 {
        'c'
    } else if digit == 13 {
        'd'
    } else if digit == 14 {
        'e'
    } else {
        'f'
    }
}

/// A number in decimal notation, without leading zeros.
pub open spec fn decimal(n: nat) -> Seq<char>
    decreases n,
{
    if n < 10 {
        seq![digit_char(n as int)]
    } else {
        decimal(n / 10).push(digit_char((n % 10) as int))
    }
}

/// A number in hexadecimal notation, in lower case, without leading zeros.
pub open spec fn hexadecimal(n: nat) -> Seq<char>
    decreases n,
{
    if n < 16 {
        seq![digit_char(n as int)]
    } else {
        hexadecimal(n / 16).push(digit_char((n % 16) as int))
    }
}

/// A flag as the word `true` or `false`.
pub open spec fn flag_word(flag: bool) -> Seq<char> {
    if flag {
        "true"@
    } else {
        "false"@
    }
}

/// An IPv4 address in dotted decimal notation.
pub open spec fn dotted(octets: Seq<u8>) -> Seq<char>
    recommends
        octets.len() == 4,
{
    decimal(octets[0] as nat) + "."@ + decimal(octets[1] as nat) + "."@ + decimal(octets[2] as nat)
        + "."@ + decimal(octets[3] as nat)
}

/// Groups of an IPv6 address in hexadecimal, with a colon between each two.
pub open spec fn colon_separated(groups: Seq<u16>) -> Seq<char>
    decreases groups.len(),
{
    if groups.len() == 0 {
        Seq::empty()
    } else if groups.len() == 1 {
        hexadecimal(groups[0] as nat)
    } else {
        colon_separated(groups.drop_last()) + ":"@ + hexadecimal(groups.last() as nat)
    }
}

/// Whether the groups from `start` up to, not including, `end` are all
/// zero.
pub open spec fn zero_run(groups: Seq<u16>, start: int, end: int) -> bool {
    &&& 0 <= start <= end <= groups.len()
    &&& forall|i: int| start <= i < end ==> groups[i] == 0
}

/// Whether the groups from `start` to `end` are the longest run of zero
/// groups, and the first of that length. Where no group is zero, this is
/// the empty run at the start.
pub open spec fn longest_zero_run(groups: Seq<u16>, start: int, end: int) -> bool {
    &&& zero_run(groups, start, end)
    &&& forall|s: int, e: int| #[trigger]
        zero_run(groups, s, e) ==> e - s < end - start || (e - s == end - start && start <= s)
}

/// Whether the address is an IPv4 address mapped into IPv6: five zero
/// groups, then one of all ones.
pub open spec fn v4_mapped(groups: Seq<u16>) -> bool
    recommends
        groups.len() == 8,
{
    groups[0] == 0 && groups[1] == 0 && groups[2] == 0 && groups[3] == 0 && groups[4] == 0
        && groups[5] == 0xffff
}

/// An IPv6 address in its usual shortened notation.
///
/// An IPv4-mapped address shows its last two groups in dotted decimal,
/// behind `::ffff:`. Otherwise the groups stand in hexadecimal with colons
/// between them, and the longest run of two or more zero groups, the first
/// one among equals, is shortened to `::`.
pub open spec fn shortened(groups: Seq<u16>) -> Seq<char>
    recommends
        groups.len() == 8,
{
    if v4_mapped(groups) {
        "::ffff:"@ + dotted(
            seq![
                (groups[6] / 256) as u8,
                (groups[6] % 256) as u8,
                (groups[7] / 256) as u8,
                (groups[7] % 256) as u8,
            ],
        )
    } else {
        let run = choose|run: (int, int)| longest_zero_run(groups, run.0, run.1);
        if run.1 - run.0 >= 2 {
            colon_separated(groups.subrange(0, run.0)) + "::"@ + colon_separated(
                groups.subrange(run.1, groups.len() as int),
            )
        } else {
            colon_separated(groups)
        }
    }
}

/// A network address in standard textual notation.
pub open spec fn address_text(address: NetworkAddress) -> Seq<char> {
    match address {
        NetworkAddress::V4(octets) => dotted(octets@),
        NetworkAddress::V6(groups) => shortened(groups@),
    }
}

/// There is only one longest, first run of zero groups.
pub proof fn lemma_longest_zero_run_unique(groups: Seq<u16>, first: (int, int), second: (int, int))
    requires
        longest_zero_run(groups, first.0, first.1),
        longest_zero_run(groups, second.0, second.1),
    ensures
        first == second,
{
}

/// The text of one digit.
fn digit_text(digit: u8) -> (text: &'static str)
    requires
        digit < 16,
    ensures
        text@ == seq![digit_char(digit as int)],
{
    proof {
        reveal_strlit("0");
        reveal_strlit("1");
        reveal_strlit("2");
        reveal_strlit("3");
        reveal_strlit("4");
        reveal_strlit("5");
        reveal_strlit("6");
        reveal_strlit("7");
        reveal_strlit("8");
        reveal_strlit("9");
        reveal_strlit("a");
        reveal_strlit("b");
        reveal_strlit("c");
        reveal_strlit("d");
        reveal_strlit("e");
        reveal_strlit("f");
    }
    let text = match digit {
        0 => "0",
        1 => "1",
        2 => "2",
        3 => "3",
        4 => "4",
        5 => "5",
        6 => "6",
        7 => "7",
        8 => "8",
        9 => "9",
        10 => "a",
        11 => "b",
        12 => "c",
        13 => "d",
        14 => "e",
        _ => "f",
    };
    assert(text@ =~= seq![digit_char(digit as int)]);
    text
}

/// Appends a number in decimal notation.
pub fn push_decimal(out: &mut String, n: u64)
    ensures
        final(out)@ == old(out)@ + decimal(n as nat),
    decreases n,
{
    if n >= 10 {
        push_decimal(out, n / 10);
    }
    out.append(digit_text((n % 10) as u8));
    assert(final(out)@ =~= old(out)@ + decimal(n as nat));
}

/// Appends a number in hexadecimal notation.
pub fn push_hexadecimal(out: &mut String, n: u16)
    ensures
        final(out)@ == old(out)@ + hexadecimal(n as nat),
    decreases n,
{
    if n >= 16 {
        push_hexadecimal(out, n / 16);
    }
    out.append(digit_text((n % 16) as u8));
    assert(final(out)@ =~= old(out)@ + hexadecimal(n as nat));
}

/// Appends the word for a flag.
pub fn push_flag(out: &mut String, flag: bool)
    ensures
        final(out)@ == old(out)@ + flag_word(flag),
{
    if flag {
        out.append("true");
    } else {
        out.append("false");
    }
}

/// Appends an IPv4 address in dotted decimal notation.
fn push_dotted(out: &mut String, a: u8, b: u8, c: u8, d: u8)
    ensures
        final(out)@ == old(out)@ + dotted(seq![a, b, c, d]),
{
    push_decimal(out, a as u64);
    out.append(".");
    push_decimal(out, b as u64);
    out.append(".");
    push_decimal(out, c as u64);
    out.append(".");
    push_decimal(out, d as u64);
    assert(final(out)@ =~= old(out)@ + dotted(seq![a, b, c, d]));
}

/// Appends the groups from `start` up to `end`, with colons between them.
fn push_groups(out: &mut String, groups: &[u16; 8], start: usize, end: usize)
    requires
        start <= end <= 8,
    ensures
        final(out)@ == old(out)@ + colon_separated(groups@.subrange(start as int, end as int)),
{
    let mut i: usize = start;
    assert(groups@.subrange(start as int, start as int) =~= Seq::<u16>::empty());
    assert(out@ =~= old(out)@ + Seq::<char>::empty());
    while i < end
        invariant
            start <= i <= end <= 8,
            out@ == old(out)@ + colon_separated(groups@.subrange(start as int, i as int)),
        decreases end - i,
    {
        let ghost before = out@;
        let ghost done = groups@.subrange(start as int, i as int);
        let ghost next = groups@.subrange(start as int, i + 1);
        proof {
            assert(next.drop_last() =~= done);
            assert(next.last() == groups@[i as int]);
        }
        if i > start {
            out.append(":");
        }
        push_hexadecimal(out, groups[i]);
        proof {
            if i > start {
                assert(out@ =~= old(out)@ + (colon_separated(done) + ":"@ + hexadecimal(
                    groups@[i as int] as nat,
                )));
            } else {
                assert(done.len() == 0);
                assert(out@ =~= old(out)@ + hexadecimal(groups@[i as int] as nat));
            }
        }
        i += 1;
    }
}

/// Finds the longest run of zero groups, the first one among equals, as
/// the position where it starts and the position behind its end.
fn find_longest_zero_run(groups: &[u16; 8]) -> (run: (usize, usize))
    ensures
        longest_zero_run(groups@, run.0 as int, run.1 as int),
{
    let mut best_start: usize = 0;
    let mut best_end: usize = 0;
    let mut current_start: usize = 0;
    let mut i: usize = 0;
    while i < 8
        invariant
            i <= 8,
            groups@.len() == 8,
            best_start <= best_end <= i,
            current_start <= i,
            zero_run(groups@, best_start as int, best_end as int),
            zero_run(groups@, current_start as int, i as int),
            current_start == 0 || groups@[current_start - 1] != 0,
            forall|s: int, e: int|
                #![trigger zero_run(groups@, s, e)]
                zero_run(groups@, s, e) && e <= i ==> e - s < best_end - best_start || (e - s
                    == best_end - best_start && best_start <= s),
        decreases 8 - i,
    {
        let ghost old_best = (best_start as int, best_end as int);
        let ghost old_current = current_start as int;
        if groups[i] == 0 {
            if i + 1 - current_start > best_end - best_start {
                best_start = current_start;
                best_end = i + 1;
            }
            proof {
                assert forall|s: int, e: int|
                    #![trigger zero_run(groups@, s, e)]
                    zero_run(groups@, s, e) && e <= i + 1 implies e - s < best_end - best_start
                    || (e - s == best_end - best_start && best_start <= s) by {
                    if e == i + 1 && s < e {
                        if s < old_current {
                            assert(groups@[old_current - 1] == 0);
                        }
                    } else if e == i + 1 {
                        assert(zero_run(groups@, 0, 0));
                    }
                }
            }
        } else {
            current_start = i + 1;
            proof {
                assert forall|s: int, e: int|
                    #![trigger zero_run(groups@, s, e)]
                    zero_run(groups@, s, e) && e <= i + 1 implies e - s < best_end - best_start
                    || (e - s == best_end - best_start && best_start <= s) by {
                    if e == i + 1 {
                        if s < e {
                            assert(groups@[i as int] == 0);
                        }
                        assert(zero_run(groups@, 0, 0));
                    }
                }
            }
        }
        i += 1;
    }
    (best_start, best_end)
}

/// Appends an IPv6 address in its usual shortened notation.
fn push_shortened(out: &mut String, groups: &[u16; 8])
    ensures
        final(out)@ == old(out)@ + shortened(groups@),
{
    if groups[0] == 0 && groups[1] == 0 && groups[2] == 0 && groups[3] == 0 && groups[4] == 0
        && groups[5] == 0xffff {
        out.append("::ffff:");
        push_dotted(
            out,
            (groups[6] / 256) as u8,
            (groups[6] % 256) as u8,
            (groups[7] / 256) as u8,
            (groups[7] % 256) as u8,
        );
        assert(final(out)@ =~= old(out)@ + shortened(groups@));
    } else {
        let run = find_longest_zero_run(groups);
        proof {
            let found = (run.0 as int, run.1 as int);
            let chosen = choose|chosen: (int, int)|
                longest_zero_run(groups@, chosen.0, chosen.1);
            assert(longest_zero_run(groups@, found.0, found.1));
            lemma_longest_zero_run_unique(groups@, found, chosen);
        }
        if run.1 - run.0 >= 2 {
            push_groups(out, groups, 0, run.0);
            out.append("::");
            push_groups(out, groups, run.1, 8);
            assert(final(out)@ =~= old(out)@ + shortened(groups@));
        } else {
            push_groups(out, groups, 0, 8);
            assert(groups@.subrange(0, 8) =~= groups@);
        }
    }
}

/// Appends a network address in standard textual notation.
pub fn push_address(out: &mut String, address: &NetworkAddress)
    ensures
        final(out)@ == old(out)@ + address_text(*address),
{
    match address {
        NetworkAddress::V4(octets) => {
            push_dotted(out, octets[0], octets[1], octets[2], octets[3]);
            assert(octets@ =~= seq![octets[0], octets[1], octets[2], octets[3]]);
        },
        NetworkAddress::V6(groups) => {
            push_shortened(out, groups);
        },
    }
}

} // verus!
