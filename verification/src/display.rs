//! What the view shows of the state: the headline over the list, the look of
//! an item, and the labels of the click counter.

use crate::decimal::{decimal, push_signed};
use crate::item::ItemModel;
use vstd::prelude::*;

verus! {

/// The headline for `left` things left to do.
pub open spec fn summary(left: int) -> Seq<char> {
    if left == 0 {
        "All done, enjoy the day!"@
    } else if left == 1 {
        "Just one more item"@
    } else {
        decimal(left) + " things left to do"@
    }
}

/// The headline for `left` things left to do.
pub fn summary_text(left: i32) -> (text: String)
    ensures
        text@ == summary(left as int),
{
    if left == 0 {
        String::from_str("All done, enjoy the day!")
    } else if left == 1 {
        String::from_str("Just one more item")
    } else {
        let mut text = String::new();
        push_signed(&mut text, left);
        text.append(" things left to do");
        assert(text@ =~= summary(left as int));
        text
    }
}

/// The text shown in place of the list while it is loading.
pub fn loading_text() -> (text: &'static str)
    ensures
        text@ == "Loading..."@,
{
    "Loading..."
}

/// An item shows as done when it is completed and no toggle is under way.
pub open spec fn shows_done(item: ItemModel) -> bool {
    item.completed && !item.updating
}

/// The colour of the text of an item: green when it shows as done, else
/// black.
pub fn text_color(completed: bool, updating: bool) -> (color: &'static str)
    ensures
        color@ == (if shows_done(ItemModel { completed, updating }) {
            "green"@
        } else {
            "black"@
        }),
{
    if completed && !updating {
        "green"
    } else {
        "black"
    }
}

/// The decoration of the text of an item: an item that is still to do, with
/// no toggle under way, is underlined; every other item is plain.
pub fn text_decoration(completed: bool, updating: bool) -> (decoration: &'static str)
    ensures
        decoration@ == (if !completed && !updating {
            "underline"@
        } else {
            "none"@
        }),
{
    if completed && !updating {
        "none"
    } else if updating {
        "none"
    } else {
        "underline"
    }
}

/// The mark before the text of an item: an hourglass and two blanks while a
/// toggle is under way, else nothing.
pub fn progress_mark(updating: bool) -> (mark: &'static str)
    ensures
        mark@ == (if updating {
            "\u{23f3}  "@
        } else {
            ""@
        }),
{
    if updating {
        "\u{23f3}  "
    } else {
        ""
    }
}

/// Twice the number of clicks.
pub fn doubled(clicks: i32) -> (twice: i32)
    requires
        i32::MIN <= 2 * clicks <= i32::MAX,
    ensures
        twice == 2 * clicks,
{
    clicks * 2
}

/// The padding of the button after `clicks` clicks: twice their number, in
/// pixels.
pub fn padding(clicks: i32) -> (style: String)
    requires
        i32::MIN <= 2 * clicks <= i32::MAX,
    ensures
        style@ == decimal(2 * clicks) + "px"@,
{
    let mut style = String::new();
    push_signed(&mut style, doubled(clicks));
    style.append("px");
    assert(style@ =~= decimal(2 * clicks) + "px"@);
    style
}

/// Whether the button is shown in red: after an odd, positive number of
/// clicks.
pub fn shows_red(clicks: i32) -> (red: bool)
    ensures
        red == (clicks > 0 && clicks % 2 == 1),
{
    clicks % 2 == 1
}

/// The label of the button after `clicks` clicks.
pub fn clicks_label(clicks: i32) -> (label: String)
    ensures
        label@ == "Clicks: "@ + decimal(clicks as int),
{
    let mut label = String::from_str("Clicks: ");
    push_signed(&mut label, clicks);
    label
}

/// The upper end of a progress bar for which none is given.
pub const DEFAULT_PROGRESS_MAX: u16 = 25;

} // verus!
