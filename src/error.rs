use vstd::prelude::*;
use vstd::string::StringExecFns;

verus! {

/// Every way in which a grid operation can reject its input.
#[derive(Debug, PartialEq, Eq, Structural)]
pub enum Vec2DErr {
    /// The source sequence holds no cells.
    EmptySource,
    /// A row index at or past the current height.
    OutOfBounds,
    /// A length that is not a multiple of the width: `(given, expected)`.
    WidthMismatch(usize, usize),
    /// A height of zero was asked for.
    ZeroHeight,
    /// A width of zero was asked for.
    ZeroWidth,
}

/// The character of decimal digit `d`.
pub open spec fn digit_char(d: nat) -> char {
    if d == 0 {
        '0'
    } else if d == 1 {
        '1'
    } else if d == 2 {
        '2'
    } else if d == 3 {
        '3'
    } else if d == 4 {
        '4'
    } else if d == 5 {
        '5'
    } else if d == 6 {
        '6'
    } else if d == 7 {
        '7'
    } else if d == 8 {
        '8'
    } else {
        '9'
    }
}

/// `n` written in decimal, most significant digit first, without sign or
/// leading zeros.
pub open spec fn decimal(n: nat) -> Seq<char>
    decreases n,
{
    if n < 10 {
        seq![digit_char(n)]
    } else {
        decimal(n / 10).push(digit_char(n % 10))
    }
}

/// Relies on `usize`'s `ToString`, through its `Display`: the plain decimal
/// digits of the number.
#[verifier::external_body]
fn decimal_string(n: usize) -> (r: String)
    ensures
        r@ == decimal(n as nat),
{
    n.to_string()
}

impl Vec2DErr {
    /// The description of the error, for people.
    pub open spec fn spec_message(&self) -> Seq<char> {
        match self {
            Vec2DErr::EmptySource => "Source vector is empty."@,
            Vec2DErr::OutOfBounds => "Attempted to acces an index which is out of bounds."@,
            Vec2DErr::WidthMismatch(len, width) => "Vector length ("@ + decimal(*len as nat)
                + ") is not divisible by given width ("@ + decimal(*width as nat) + ")."@,
            Vec2DErr::ZeroWidth => "Width must be bigger than 0."@,
            Vec2DErr::ZeroHeight => "Height must be bigger than 0."@,
        }
    }

    /// Describes the error for people.
    pub fn message(&self) -> (r: String)
        ensures
            r@ == self.spec_message(),
    {
        match self {
            Vec2DErr::EmptySource => String::from_str("Source vector is empty."),
            Vec2DErr::OutOfBounds => String::from_str(
                "Attempted to acces an index which is out of bounds.",
            ),
            Vec2DErr::WidthMismatch(len, width) => {
                let mut s = String::from_str("Vector length (");
                let n = decimal_string(*len);
                s.append(n.as_str());
                s.append(") is not divisible by given width (");
                let w = decimal_string(*width);
                s.append(w.as_str());
                s.append(").");
                s
            },
            Vec2DErr::ZeroWidth => String::from_str("Width must be bigger than 0."),
            Vec2DErr::ZeroHeight => String::from_str("Height must be bigger than 0."),
        }
    }
}

} // verus!
