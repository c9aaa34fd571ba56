//! A report as text: one entry for each level, the price painted by its
//! class.

use colored::Colorize;
use vstd::prelude::*;
use vstd::string::*;
use crate::book::PriceLevel;
use crate::change::ChangeClass;
use crate::decimal::{lemma_text_chars, signed_text_of, text_of};
use crate::session::{ReportModel, ViewReport};
use crate::text::joined;

verus! {

/// The colours and weights that a report uses.
#[derive(Clone, Copy, Debug, PartialEq, Eq, Structural, Hash)]
pub enum Paint {
    Plain,
    Magenta,
    Blue,
    BlueBold,
    GreenBold,
    RedBold,
}

/// The sequence that switches a terminal to `paint`.
pub open spec fn start_of(paint: Paint) -> Seq<char> {
    match paint {
        Paint::Plain => Seq::empty(),
        Paint::Magenta => "\x1b[35m"@,
        Paint::Blue => "\x1b[34m"@,
        Paint::BlueBold => "\x1b[1;34m"@,
        Paint::GreenBold => "\x1b[1;32m"@,
        Paint::RedBold => "\x1b[1;31m"@,
    }
}

/// The sequence that switches a terminal back.
pub open spec fn reset() -> Seq<char> {
    "\x1b[0m"@
}

/// Whether `text` holds the reset sequence somewhere.
pub open spec fn holds_reset(text: Seq<char>) -> bool {
    exists|i: int|
        0 <= i <= text.len() - reset().len() && #[trigger] text.subrange(i, i + reset().len())
            == reset()
}

/// Whether `painted` is `text` in `paint`: `text` between the sequence
/// that starts `paint` and the reset sequence; or `text` alone, where
/// colours are switched off; or `text` and the reset sequence, where they
/// are switched off while it is written. Plain text is always `text` alone.
pub open spec fn painted_as(painted: Seq<char>, text: Seq<char>, paint: Paint) -> bool {
    if paint == Paint::Plain {
        painted == text
    } else {
        ||| painted == text
        ||| painted == start_of(paint) + text + reset()
        ||| painted == text + reset()
    }
}

/// The paint of a price by its class: what is new is blue, what rose is
/// green, what fell is red, all three bold; what is unchanged is plain.
pub open spec fn paint_of(class: ChangeClass) -> Paint {
    match class {
        ChangeClass::New => Paint::BlueBold,
        ChangeClass::Increased => Paint::GreenBold,
        ChangeClass::Decreased => Paint::RedBold,
        ChangeClass::Unchanged => Paint::Plain,
    }
}

/// The entry of one level.
pub open spec fn entry_text(exchange: Seq<char>, price: Seq<char>, amount: Seq<char>) -> Seq<
    char,
> {
    "{ \"exchange\": \""@ + exchange + "\", \"price\": "@ + price + ", \"amount\": "@ + amount
        + " }"@
}

/// What stands between two entries.
pub open spec fn entry_separator() -> Seq<char> {
    ",\n        "@
}

/// The text of each string of `strings`.
pub open spec fn texts(strings: Seq<String>) -> Seq<Seq<char>> {
    Seq::new(strings.len(), |i: int| strings[i]@)
}

/// Whether `entry` is the entry of `level` with its price painted by
/// `class`.
pub open spec fn is_entry_of(entry: Seq<char>, level: PriceLevel, class: ChangeClass) -> bool {
    exists|price: Seq<char>| #[trigger]
        painted_as(price, text_of(level.price@ as nat), paint_of(class)) && entry == entry_text(
            level.source.spec_name(),
            price,
            text_of(level.amount@ as nat),
        )
}

/// Whether `entries` are the entries of `ladder`, level by level, painted
/// by `classes`.
pub open spec fn are_entries_of(
    entries: Seq<Seq<char>>,
    ladder: Seq<PriceLevel>,
    classes: Seq<ChangeClass>,
) -> bool {
    &&& entries.len() == ladder.len()
    &&& forall|i: int|
        0 <= i < ladder.len() ==> is_entry_of(#[trigger] entries[i], ladder[i], classes[i])
}

/// The frame of a report around its painted parts.
pub open spec fn report_text(
    pair: Seq<char>,
    label: Seq<char>,
    spread: Seq<char>,
    note: Seq<char>,
    asks: Seq<char>,
    bids: Seq<char>,
) -> Seq<char> {
    "{\n    \"pair\": \""@ + pair + "\",\n    \"spread\": "@ + label + spread + note
        + ",\n\"asks\": ["@ + asks + "],\n\"bids\": ["@ + bids + "]\n}"@
}

/// What stands before the spread.
pub open spec fn spread_label() -> Seq<char> {
    "Spread: "@
}

/// What stands behind the spread.
pub open spec fn spread_note() -> Seq<char> {
    " (Best Ask - Best Bid)"@
}

/// Whether `text` is `report` framed around the given painted parts.
pub open spec fn frames(
    text: Seq<char>,
    report: ReportModel,
    pair: Seq<char>,
    label: Seq<char>,
    spread: Seq<char>,
    note: Seq<char>,
    asks: Seq<Seq<char>>,
    bids: Seq<Seq<char>>,
) -> bool {
    &&& !holds_reset(report.view.pair) ==> painted_as(pair, report.view.pair, Paint::Magenta)
    &&& painted_as(label, spread_label(), Paint::Blue)
    &&& painted_as(spread, signed_text_of(report.view.spread), Paint::GreenBold)
    &&& painted_as(note, spread_note(), Paint::Blue)
    &&& are_entries_of(asks, report.view.top_asks, report.asks.classes)
    &&& are_entries_of(bids, report.view.top_bids, report.bids.classes)
    &&& text == report_text(
        pair,
        label,
        spread,
        note,
        joined(asks, entry_separator()),
        joined(bids, entry_separator()),
    )
}

/// Whether `text` is `report` as text: the pair in magenta, the spread in
/// bold green between its blue label and note, and the entries of the asks
/// and of the bids. Of a pair whose symbol holds the reset sequence only
/// the place is told, not how it is painted.
pub open spec fn is_report_of(text: Seq<char>, report: ReportModel) -> bool {
    exists|
        pair: Seq<char>,
        label: Seq<char>,
        spread: Seq<char>,
        note: Seq<char>,
        asks: Seq<Seq<char>>,
        bids: Seq<Seq<char>>,
    | #[trigger] frames(text, report, pair, label, spread, note, asks, bids)
}

/// `normal` of colored's `Colorize`, written out by the `Display` of its
/// `ColoredString`: a string without colour or weight is written as it is.
#[verifier::external_body]
fn paint_plain(text: &str) -> (painted: String)
    ensures
        painted@ == text@,
{
    text.normal().to_string()
}

/// `magenta` of colored's `Colorize`, written out by the `Display` of its
/// `ColoredString`. Where colours are on, the text stands between the
/// sequence for magenta and the reset sequence; where they are off, it
/// stands alone. colored asks its switch again before it writes the start
/// sequence, so where the switch is turned off in between, the text and
/// the reset sequence are written. Nothing is said of a text that holds
/// the reset sequence: colored writes the start sequence again behind it.
#[verifier::external_body]
fn paint_magenta(text: &str) -> (painted: String)
    ensures
        !holds_reset(text@) ==> painted_as(painted@, text@, Paint::Magenta),
{
    text.magenta().to_string()
}

/// `blue` of colored's `Colorize`, written out by the `Display` of its
/// `ColoredString`: a text without the reset sequence comes alone, or
/// between the sequence for blue and the reset sequence, or before the
/// reset sequence, as for magenta.
#[verifier::external_body]
fn paint_blue(text: &str) -> (painted: String)
    ensures
        !holds_reset(text@) ==> painted_as(painted@, text@, Paint::Blue),
{
    text.blue().to_string()
}

/// `blue` and `bold` of colored's `Colorize`, written out by the `Display`
/// of its `ColoredString`: a text without the reset sequence comes alone,
/// or between the sequence for bold blue and the reset sequence, or before
/// the reset sequence.
#[verifier::external_body]
fn paint_blue_bold(text: &str) -> (painted: String)
    ensures
        !holds_reset(text@) ==> painted_as(painted@, text@, Paint::BlueBold),
{
    text.blue().bold().to_string()
}

/// `green` and `bold` of colored's `Colorize`, written out by the
/// `Display` of its `ColoredString`: a text without the reset sequence
/// comes alone, or between the sequence for bold green and the reset
/// sequence, or before the reset sequence.
#[verifier::external_body]
fn paint_green_bold(text: &str) -> (painted: String)
    ensures
        !holds_reset(text@) ==> painted_as(painted@, text@, Paint::GreenBold),
{
    text.green().bold().to_string()
}

/// `red` and `bold` of colored's `Colorize`, written out by the `Display`
/// of its `ColoredString`: a text without the reset sequence comes alone,
/// or between the sequence for bold red and the reset sequence, or before
/// the reset sequence.
#[verifier::external_body]
fn paint_red_bold(text: &str) -> (painted: String)
    ensures
        !holds_reset(text@) ==> painted_as(painted@, text@, Paint::RedBold),
{
    text.red().bold().to_string()
}

/// A text without an escape character does not hold the reset sequence,
/// which begins with one.
pub proof fn lemma_no_escape_no_reset(text: Seq<char>)
    requires
        forall|i: int| 0 <= i < text.len() ==> #[trigger] text[i] != '\x1b',
    ensures
        !holds_reset(text),
{
    reveal_strlit("\x1b[0m");
    if holds_reset(text) {
        let i = choose|i: int|
            0 <= i <= text.len() - reset().len() && #[trigger] text.subrange(i, i + reset().len())
                == reset();
        assert(text.subrange(i, i + reset().len())[0] == text[i]);
        assert(reset()[0] == '\x1b');
    }
}

/// The text of a decimal, with or without a sign, does not hold the reset
/// sequence.
pub proof fn lemma_decimal_text_has_no_reset(units: int)
    ensures
        !holds_reset(signed_text_of(units)),
        units >= 0 ==> !holds_reset(text_of(units as nat)),
{
    lemma_text_chars(if units < 0 { (-units) as nat } else { units as nat });
    lemma_no_escape_no_reset(signed_text_of(units));
    if units >= 0 {
        lemma_no_escape_no_reset(text_of(units as nat));
    }
}

/// The label and the note of the spread do not hold the reset sequence.
pub proof fn lemma_labels_have_no_reset()
    ensures
        !holds_reset(spread_label()),
        !holds_reset(spread_note()),
{
    reveal_strlit("Spread: ");
    reveal_strlit(" (Best Ask - Best Bid)");
    assert forall|i: int| 0 <= i < spread_label().len() implies #[trigger] spread_label()[i]
        != '\x1b' by {}
    assert forall|i: int| 0 <= i < spread_note().len() implies #[trigger] spread_note()[i]
        != '\x1b' by {}
    lemma_no_escape_no_reset(spread_label());
    lemma_no_escape_no_reset(spread_note());
}

/// The paint of a price by its class.
pub fn class_paint(class: ChangeClass) -> (paint: Paint)
    ensures
        paint == paint_of(class),
{
    match class {
        ChangeClass::New => Paint::BlueBold,
        ChangeClass::Increased => Paint::GreenBold,
        ChangeClass::Decreased => Paint::RedBold,
        ChangeClass::Unchanged => Paint::Plain,
    }
}

/// `text` in `how`. Plain text is returned as it is. Of a text that holds
/// the reset sequence nothing more is said than that it is painted.
pub fn paint(text: &str, how: Paint) -> (painted: String)
    ensures
        how == Paint::Plain ==> painted@ == text@,
        !holds_reset(text@) ==> painted_as(painted@, text@, how),
{
    match how {
        Paint::Plain => paint_plain(text),
        Paint::Magenta => paint_magenta(text),
        Paint::Blue => paint_blue(text),
        Paint::BlueBold => paint_blue_bold(text),
        Paint::GreenBold => paint_green_bold(text),
        Paint::RedBold => paint_red_bold(text),
    }
}

/// The entry of one level from its parts.
pub fn level_entry(exchange: &str, price: &str, amount: &str) -> (entry: String)
    ensures
        entry@ == entry_text(exchange@, price@, amount@),
{
    let mut entry = String::from_str("{ \"exchange\": \"");
    entry.append(exchange);
    entry.append("\", \"price\": ");
    entry.append(price);
    entry.append(", \"amount\": ");
    entry.append(amount);
    entry.append(" }");
    entry
}

/// The entry of `level`, its price painted by `class`.
pub fn render_level(level: &PriceLevel, class: ChangeClass) -> (entry: String)
    ensures
        is_entry_of(entry@, *level, class),
{
    let price = paint(level.price.to_text().as_str(), class_paint(class));
    let amount = level.amount.to_text();
    let entry = level_entry(level.source.name(), price.as_str(), amount.as_str());
    proof {
        lemma_decimal_text_has_no_reset(level.price@);
    }
    assert(painted_as(price@, text_of(level.price@ as nat), paint_of(class)));
    entry
}

/// The entries of `ladder`, level by level, each price painted by the
/// class of its level.
pub fn color_changes(ladder: &Vec<PriceLevel>, classes: &Vec<ChangeClass>) -> (entries: Vec<
    String,
>)
    requires
        classes@.len() == ladder@.len(),
    ensures
        are_entries_of(texts(entries@), ladder@, classes@),
{
    let mut entries: Vec<String> = Vec::new();
    let mut i: usize = 0;
    while i < ladder.len()
        invariant
            i <= ladder.len(),
            classes@.len() == ladder@.len(),
            entries@.len() == i,
            forall|k: int|
                0 <= k < i ==> is_entry_of((#[trigger] entries@[k])@, ladder@[k], classes@[k]),
        decreases ladder.len() - i,
    {
        entries.push(render_level(&ladder[i], classes[i]));
        i = i + 1;
    }
    assert forall|k: int| 0 <= k < ladder@.len() implies is_entry_of(
        #[trigger] texts(entries@)[k],
        ladder@[k],
        classes@[k],
    ) by {
        assert(texts(entries@)[k] == entries@[k]@);
    }
    entries
}

/// The entries with a comma and a line break between each two of them.
pub fn format_order_entries(entries: &Vec<String>) -> (text: String)
    ensures
        text@ == joined(texts(entries@), entry_separator()),
{
    let mut text = String::new();
    let mut i: usize = 0;
    assert(texts(entries@).take(0) =~= Seq::<Seq<char>>::empty());
    while i < entries.len()
        invariant
            i <= entries.len(),
            text@ == joined(texts(entries@).take(i as int), entry_separator()),
        decreases entries.len() - i,
    {
        proof {
            let now = texts(entries@).take(i + 1);
            assert(now.drop_last() =~= texts(entries@).take(i as int));
            assert(now.last() == entries@[i as int]@);
        }
        if i > 0 {
            text.append(",\n        ");
        } else {
            assert(Seq::<char>::empty() + entries@[0]@ =~= entries@[0]@);
        }
        text.append(entries[i].as_str());
        i = i + 1;
    }
    assert(texts(entries@).take(entries@.len() as int) =~= texts(entries@));
    text
}

/// The frame of a report around its painted parts.
pub fn frame_report(pair: &str, label: &str, spread: &str, note: &str, asks: &str, bids: &str) -> (text:
    String)
    ensures
        text@ == report_text(pair@, label@, spread@, note@, asks@, bids@),
{
    let mut text = String::from_str("{\n    \"pair\": \"");
    text.append(pair);
    text.append("\",\n    \"spread\": ");
    text.append(label);
    text.append(spread);
    text.append(note);
    text.append(",\n\"asks\": [");
    text.append(asks);
    text.append("],\n\"bids\": [");
    text.append(bids);
    text.append("]\n}");
    text
}

/// The report as text, ready to be printed.
pub fn render_report(report: &ViewReport) -> (text: String)
    ensures
        is_report_of(text@, report@),
{
    let view = report.merged_view();
    proof {
        lemma_decimal_text_has_no_reset(view@.spread);
        lemma_labels_have_no_reset();
    }
    let pair = paint(view.pair().symbol(), Paint::Magenta);
    let label = paint("Spread: ", Paint::Blue);
    let spread = paint(view.spread().to_text().as_str(), Paint::GreenBold);
    let note = paint(" (Best Ask - Best Bid)", Paint::Blue);
    let asks = color_changes(view.top_asks(), &report.asks().classes);
    let bids = color_changes(view.top_bids(), &report.bids().classes);
    let text = frame_report(
        pair.as_str(),
        label.as_str(),
        spread.as_str(),
        note.as_str(),
        format_order_entries(&asks).as_str(),
        format_order_entries(&bids).as_str(),
    );
    assert(frames(
        text@,
        report@,
        pair@,
        label@,
        spread@,
        note@,
        texts(asks@),
        texts(bids@),
    ));
    text
}

} // verus!
