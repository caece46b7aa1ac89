//! The text of a report: a header line, then one numbered entry for each
//! listed character.

use crate::attribute::{Attribute, AttributeKind, AttributeValue};
use crate::text::{
    address_text, decimal, flag_word, push_address, push_decimal, push_flag,
};
use colored::Colorize;
use vstd::prelude::*;

verus! {

/// What stands in front of a value of the given type on its line.
pub open spec fn label(kind: AttributeKind) -> Seq<char> {
    match kind {
        AttributeKind::Name => "\t\tName:\t\t"@,
        AttributeKind::Health => "\t\tHealth:\t\t"@,
        AttributeKind::Killable => "\t\tKillable:\t"@,
        AttributeKind::NetworkAddress => "\t\tIP:\t\t"@,
    }
}

/// A value as it is shown: a name as it is, health in decimal, the killable
/// flag as a word, an address in standard notation.
pub open spec fn value_text(value: AttributeValue) -> Seq<char> {
    match value {
        AttributeValue::Name(text) => text,
        AttributeValue::Health(points) => decimal(points as nat),
        AttributeValue::Killable(flag) => flag_word(flag),
        AttributeValue::NetworkAddress(address) => address_text(address),
    }
}

/// The line for one value: its label, the value, a line break.
pub open spec fn attribute_line(value: AttributeValue) -> Seq<char> {
    label(value.kind()) + value_text(value) + "\n"@
}

/// The lines for the values of one character, in order.
pub open spec fn attribute_lines(values: Seq<AttributeValue>) -> Seq<char>
    decreases values.len(),
{
    if values.len() == 0 {
        Seq::empty()
    } else {
        attribute_lines(values.drop_last()) + attribute_line(values.last())
    }
}

/// The entry for one character: the number under which it is listed, then
/// its lines.
pub open spec fn entry_text(number: nat, values: Seq<AttributeValue>) -> Seq<char> {
    "\tID "@ + decimal(number) + ":\n"@ + attribute_lines(values)
}

/// The entries for all rows. Each row is numbered by its position, from
/// zero.
pub open spec fn entries_text(rows: Seq<Seq<AttributeValue>>) -> Seq<char>
    decreases rows.len(),
{
    if rows.len() == 0 {
        Seq::empty()
    } else {
        entries_text(rows.drop_last()) + entry_text((rows.len() - 1) as nat, rows.last())
    }
}

/// A whole report block: the header on a line of its own, then the
/// entries.
pub open spec fn block_text(header: Seq<char>, rows: Seq<Seq<AttributeValue>>) -> Seq<char> {
    header + "\n"@ + entries_text(rows)
}

/// A label between the terminal's control sequences that switch bold type
/// on and all styling off.
pub open spec fn bold(label: Seq<char>) -> Seq<char> {
    "\x1b[1m"@ + label + "\x1b[0m"@
}

/// Whether `styled` is `label` with emphasis: either set in bold, or, where
/// styling is switched off, left as it is.
pub open spec fn emphasized(label: Seq<char>, styled: Seq<char>) -> bool {
    styled == label || styled == bold(label)
}

/// Marks a header for emphasis, by `colored::Colorize::bold` and the
/// `Display` implementation of `colored::ColoredString`.
///
/// Whether styling is applied depends on the environment of the process
/// (the variables `NO_COLOR`, `CLICOLOR` and `CLICOLOR_FORCE`, whether the
/// standard output is a terminal, and an override that the host may set).
/// With styling, a label that holds no escape character comes back
/// between the sequences for bold and for reset; without styling it comes
/// back as it is. Nothing is claimed of a label that holds an escape
/// character.
///
/// This is what the source of `colored` shows. It is taken on trust, not
/// proved.
#[verifier::external_body]
pub(crate) fn emphasize(label: &str) -> (styled: String)
    ensures
        !label@.contains('\x1b') ==> emphasized(label@, styled@),
{
    label.bold().to_string()
}

/// Appends the line for one attribute.
pub fn push_attribute_line(out: &mut String, attribute: &Attribute)
    ensures
        final(out)@ == old(out)@ + attribute_line(attribute@),
{
    match attribute {
        Attribute::Name(text) => {
            out.append("\t\tName:\t\t");
            out.append(text.as_str());
        },
        Attribute::Health(points) => {
            out.append("\t\tHealth:\t\t");
            push_decimal(out, *points as u64);
        },
        Attribute::Killable(flag) => {
            out.append("\t\tKillable:\t");
            push_flag(out, *flag);
        },
        Attribute::NetworkAddress(address) => {
            out.append("\t\tIP:\t\t");
            push_address(out, address);
        },
    }
    out.append("\n");
    assert(final(out)@ =~= old(out)@ + attribute_line(attribute@));
}

/// Appends the entry for one character, listed under `number`.
pub fn push_entry(out: &mut String, number: usize, attributes: &Vec<Attribute>)
    ensures
        final(out)@ == old(out)@ + entry_text(number as nat, attributes.deep_view()),
{
    out.append("\tID ");
    push_decimal(out, number as u64);
    out.append(":\n");
    let ghost head = out@;
    let ghost values = attributes.deep_view();
    let count: usize = attributes.len();
    let mut i: usize = 0;
    assert(out@ =~= head + attribute_lines(values.take(0)));
    while i < count
        invariant
            count == attributes@.len(),
            values == attributes.deep_view(),
            i <= count,
            out@ == head + attribute_lines(values.take(i as int)),
        decreases count - i,
    {
        proof {
            let next = values.take(i + 1);
            assert(next.drop_last() =~= values.take(i as int));
            assert(next.last() == attributes@[i as int]@);
        }
        push_attribute_line(out, &attributes[i]);
        i += 1;
        assert(out@ =~= head + attribute_lines(values.take(i as int)));
    }
    proof {
        assert(values.take(count as int) =~= values);
        assert(final(out)@ =~= old(out)@ + entry_text(number as nat, values));
    }
}

/// The text of a report block under the given header line.
pub fn render_block(header: &str, rows: &Vec<Vec<Attribute>>) -> (text: String)
    ensures
        text@ == block_text(header@, rows.deep_view()),
{
    let mut text = String::new();
    text.append(header);
    text.append("\n");
    let ghost head = text@;
    let ghost values = rows.deep_view();
    let count: usize = rows.len();
    let mut i: usize = 0;
    assert(text@ =~= head + entries_text(values.take(0)));
    while i < count
        invariant
            count == rows@.len(),
            values == rows.deep_view(),
            i <= count,
            text@ == head + entries_text(values.take(i as int)),
        decreases count - i,
    {
        proof {
            let next = values.take(i + 1);
            assert(next.drop_last() =~= values.take(i as int));
            assert(next.last() == rows@[i as int].deep_view());
        }
        push_entry(&mut text, i, &rows[i]);
        i += 1;
        assert(text@ =~= head + entries_text(values.take(i as int)));
    }
    proof {
        assert(values.take(count as int) =~= values);
        assert(text@ =~= block_text(header@, values));
    }
    text
}

} // verus!
