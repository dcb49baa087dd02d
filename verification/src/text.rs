use vstd::prelude::*;
use vstd::string::*;

verus! {

/// The text of a single decimal digit.
pub open spec fn digit_text(digit: nat) -> Seq<char> {
    if digit == 0 {
        "0"@
    } else if digit == 1 {
        "1"@
    } else if digit == 2 {
        "2"@
    } else if digit == 3 {
        "3"@
    } else if digit == 4 {
        "4"@
    } else if digit == 5 {
        "5"@
    } else if digit == 6 {
        "6"@
    } else if digit == 7 {
        "7"@
    } else if digit == 8 {
        "8"@
    } else {
        "9"@
    }
}

/// A number in decimal, without sign or leading zeros.
pub open spec fn decimal_text(n: nat) -> Seq<char>
    decreases n,
{
    if n < 10 {
        digit_text(n)
    } else {
        decimal_text(n / 10) + digit_text(n % 10)
    }
}

/// The sizes of a shape in decimal, separated by a comma and a space.
pub open spec fn sizes_text(shape: Seq<u32>) -> Seq<char>
    decreases shape.len(),
{
    if shape.len() == 0 {
        Seq::empty()
    } else if shape.len() == 1 {
        decimal_text(shape[0] as nat)
    } else {
        sizes_text(shape.drop_last()) + ", "@ + decimal_text(shape.last() as nat)
    }
}

/// A shape as it is shown in messages: its sizes between square brackets.
pub open spec fn shape_text(shape: Seq<u32>) -> Seq<char> {
    "["@ + sizes_text(shape) + "]"@
}

fn digit(value: u64) -> (text: &'static str)
    requires
        value < 10,
    ensures
        text@ == digit_text(value as nat),
{
    if value == 0 {
        "0"
    } else if value == 1 {
        "1"
    } else if value == 2 {
        "2"
    } else if value == 3 {
        "3"
    } else if value == 4 {
        "4"
    } else if value == 5 {
        "5"
    } else if value == 6 {
        "6"
    } else if value == 7 {
        "7"
    } else if value == 8 {
        "8"
    } else {
        "9"
    }
}

/// Writes a number in decimal.
pub fn decimal(n: u64) -> (text: String)
    ensures
        text@ == decimal_text(n as nat),
    decreases n,
{
    if n < 10 {
        String::from_str(digit(n))
    } else {
        let mut text = decimal(n / 10);
        text.append(digit(n % 10));
        text
    }
}

/// Writes a shape as it is shown in messages.
pub fn shape_to_text(shape: &[u32]) -> (text: String)
    ensures
        text@ == shape_text(shape@),
{
    let mut text = String::from_str("[");
    let mut axis: usize = 0;
    assert(shape@.take(0) =~= Seq::<u32>::empty());
    while axis < shape.len()
        invariant
            axis <= shape.len(),
            text@ == "["@ + sizes_text(shape@.take(axis as int)),
        decreases shape.len() - axis,
    {
        let ghost before = shape@.take(axis as int);
        let ghost after = shape@.take(axis as int + 1);
        proof {
            assert(after.drop_last() =~= before);
            assert(after.last() == shape@[axis as int]);
        }
        if axis > 0 {
            text.append(", ");
        }
        let size = decimal(shape[axis] as u64);
        text.append(size.as_str());
        proof {
            if axis > 0 {
                assert(text@ =~= "["@ + (sizes_text(before) + ", "@ + decimal_text(
                    shape@[axis as int] as nat,
                )));
            } else {
                assert(sizes_text(before) =~= Seq::<char>::empty());
                assert(text@ =~= "["@ + decimal_text(shape@[axis as int] as nat));
            }
        }
        axis += 1;
    }
    assert(shape@.take(axis as int) =~= shape@);
    text.append("]");
    text
}

} // verus!
