//! Terminal colouring through `owo-colors`, with the escape sequences its
//! source writes stated exactly.

use vstd::prelude::*;

use owo_colors::OwoColorize;

verus! {

/// The foreground colours this crate paints with.
#[derive(Clone, Copy, Debug, PartialEq, Eq, Structural)]
pub enum Hue {
    Red,
    Green,
    Yellow,
    Blue,
    Magenta,
    Cyan,
    BrightRed,
}

/// The SGR code `owo-colors` writes for a foreground colour.
pub open spec fn fg_code(h: Hue) -> Seq<char> {
    match h {
        Hue::Red => "31"@,
        Hue::Green => "32"@,
        Hue::Yellow => "33"@,
        Hue::Blue => "34"@,
        Hue::Magenta => "35"@,
        Hue::Cyan => "36"@,
        Hue::BrightRed => "91"@,
    }
}

/// `text` in foreground colour `h`, reset to the default colour after.
pub open spec fn painted(text: Seq<char>, h: Hue) -> Seq<char> {
    "\x1b["@ + fg_code(h) + "m"@ + text + "\x1b[39m"@
}

/// The text styles this crate uses.
#[derive(Clone, Copy, Debug, PartialEq, Eq, Structural)]
pub enum Look {
    Red,
    Green,
    Dimmed,
    RedBold,
    GreenBold,
}

/// The SGR prefix `owo-colors` writes for a style.
pub open spec fn look_prefix(l: Look) -> Seq<char> {
    match l {
        Look::Red => "\x1b[31m"@,
        Look::Green => "\x1b[32m"@,
        Look::Dimmed => "\x1b[2m"@,
        Look::RedBold => "\x1b[31;1m"@,
        Look::GreenBold => "\x1b[32;1m"@,
    }
}

/// `text` in style `l`, with every attribute reset after.
pub open spec fn styled_text(text: Seq<char>, l: Look) -> Seq<char> {
    look_prefix(l) + text + "\x1b[0m"@
}

/// `OwoColorize::color` with an `AnsiColors` value, displayed: the colour's
/// foreground escape, `text`, then `ESC[39m`.
#[verifier::external_body]
pub(crate) fn paint(text: &str, h: Hue) -> (r: String)
    ensures
        r@ == painted(text@, h),
{
    let c = match h {
        Hue::Red => owo_colors::AnsiColors::Red,
        Hue::Green => owo_colors::AnsiColors::Green,
        Hue::Yellow => owo_colors::AnsiColors::Yellow,
        Hue::Blue => owo_colors::AnsiColors::Blue,
        Hue::Magenta => owo_colors::AnsiColors::Magenta,
        Hue::Cyan => owo_colors::AnsiColors::Cyan,
        Hue::BrightRed => owo_colors::AnsiColors::BrightRed,
    };
    format!("{}", text.color(c))
}

/// `OwoColorize::style` with an `owo_colors::Style`, displayed: the
/// style's SGR prefix, `text`, then `ESC[0m`.
#[verifier::external_body]
pub(crate) fn style(text: &str, l: Look) -> (r: String)
    ensures
        r@ == styled_text(text@, l),
{
    let s = match l {
        Look::Red => owo_colors::Style::new().red(),
        Look::Green => owo_colors::Style::new().green(),
        Look::Dimmed => owo_colors::Style::new().dimmed(),
        Look::RedBold => owo_colors::Style::new().red().bold(),
        Look::GreenBold => owo_colors::Style::new().green().bold(),
    };
    format!("{}", text.style(s))
}

} // verus!
