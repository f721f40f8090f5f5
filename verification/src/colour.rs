use vstd::prelude::*;
use vstd::string::StringExecFns;

verus! {

/// The character of decimal digit `d`.
pub open spec fn digit(d: nat) -> char {
    ('0' as nat + d) as char
}

/// The decimal digits of `n`, most significant first, with no leading zero.
pub open spec fn decimal(n: nat) -> Seq<char>
    decreases n,
{
    if n < 10 {
        seq![digit(n)]
    } else {
        decimal(n / 10).push(digit(n % 10))
    }
}

/// The channels in decimal, separated by single spaces: `"r g b"`.
pub open spec fn colour_text(r: u8, g: u8, b: u8) -> Seq<char> {
    decimal(r as nat) + seq![' '] + decimal(g as nat) + seq![' '] + decimal(b as nat)
}

/// Appends decimal digit `d` to `text`.
fn append_digit(text: &mut String, d: u8)
    requires
        d < 10,
    ensures
        final(text)@ == old(text)@.push(digit(d as nat)),
{
    match d {
        0 => {
            proof {
                reveal_strlit("0");
            }
            assert(digit(0) == '0');
            text.append("0");
        },
        1 => {
            proof {
                reveal_strlit("1");
            }
            assert(digit(1) == '1');
            text.append("1");
        },
        2 => {
            proof {
                reveal_strlit("2");
            }
            assert(digit(2) == '2');
            text.append("2");
        },
        3 => {
            proof {
                reveal_strlit("3");
            }
            assert(digit(3) == '3');
            text.append("3");
        },
        4 => {
            proof {
                reveal_strlit("4");
            }
            assert(digit(4) == '4');
            text.append("4");
        },
        5 => {
            proof {
                reveal_strlit("5");
            }
            assert(digit(5) == '5');
            text.append("5");
        },
        6 => {
            proof {
                reveal_strlit("6");
            }
            assert(digit(6) == '6');
            text.append("6");
        },
        7 => {
            proof {
                reveal_strlit("7");
            }
            assert(digit(7) == '7');
            text.append("7");
        },
        8 => {
            proof {
                reveal_strlit("8");
            }
            assert(digit(8) == '8');
            text.append("8");
        },
        _ => {
            proof {
                reveal_strlit("9");
            }
            assert(digit(9) == '9');
            text.append("9");
        },
    }
}

/// Appends the decimal digits of `n` to `text`.
fn append_decimal(text: &mut String, n: u8)
    ensures
        final(text)@ == old(text)@ + decimal(n as nat),
{
    let ghost start = text@;
    proof {
        reveal_with_fuel(decimal, 3);
    }
    if n >= 100 {
        append_digit(text, n / 100);
    }
    if n >= 10 {
        append_digit(text, (n / 10) % 10);
    }
    append_digit(text, n % 10);
    if n >= 100 {
        assert(decimal(n as nat / 10) =~= decimal(n as nat / 100).push(digit((n as nat / 10) % 10)));
        assert(decimal(n as nat / 100) =~= seq![digit(n as nat / 100)]);
    } else if n >= 10 {
        assert(decimal(n as nat / 10) =~= seq![digit(n as nat / 10)]);
    }
    assert(text@ =~= start + decimal(n as nat));
}

/// An 8-bit-per-channel colour, as written to the frame buffers.
#[derive(Clone, Copy, Debug, PartialEq, Eq, Structural)]
pub struct RGBColour {
    pub r: u8,
    pub g: u8,
    pub b: u8,
}

impl RGBColour {
    /// Builds a colour from its three channels.
    pub fn new(r: u8, g: u8, b: u8) -> (c: RGBColour)
        ensures
            c.r == r,
            c.g == g,
            c.b == b,
    {
        RGBColour { r, g, b }
    }

    /// The colour as text: the three channels in decimal, red, green, blue,
    /// separated by single spaces.
    pub fn to_string(&self) -> (text: String)
        ensures
            text@ == colour_text(self.r, self.g, self.b),
    {
        let mut text = String::new();
        append_decimal(&mut text, self.r);
        proof {
            reveal_strlit(" ");
        }
        text.append(" ");
        append_decimal(&mut text, self.g);
        text.append(" ");
        append_decimal(&mut text, self.b);
        assert(text@ =~= colour_text(self.r, self.g, self.b));
        text
    }
}

impl Default for RGBColour {
    /// Black.
    fn default() -> (c: RGBColour)
        ensures
            c.r == 0,
            c.g == 0,
            c.b == 0,
    {
        RGBColour { r: 0, g: 0, b: 0 }
    }
}

impl<'a> From<&'a RGBColour> for [u8; 3] {
    /// The channels in the order red, green, blue.
    fn from(colour: &'a RGBColour) -> (a: [u8; 3]) {
        [colour.r, colour.g, colour.b]
    }
}

impl<'a> vstd::std_specs::convert::FromSpecImpl<&'a RGBColour> for [u8; 3] {
    open spec fn obeys_from_spec() -> bool {
        true
    }

    open spec fn from_spec(colour: &'a RGBColour) -> [u8; 3] {
        [colour.r, colour.g, colour.b]
    }
}

} // verus!
