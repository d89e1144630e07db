use vstd::prelude::*;
use vstd::string::StringExecFns;

verus! {

/// The character of a decimal digit.
pub open spec fn digit_char(d: nat) -> char {
    ((d % 10) + 48) as char
}

/// The decimal notation of `n`, most significant digit first, without leading zeros.
pub open spec fn decimal(n: nat) -> Seq<char>
    decreases n,
{
    if n < 10 {
        seq![digit_char(n)]
    } else {
        decimal(n / 10).push(digit_char(n % 10))
    }
}

/// Name of the image file that holds the cursor of identity `id`: `cursor_<id>.png`.
pub open spec fn file_name_for(id: nat) -> Seq<char> {
    "cursor_"@ + decimal(id) + ".png"@
}

/// Relies on `u32`'s `ToString` (through `Display`): its decimal notation.
#[verifier::external_body]
pub(crate) fn decimal_text(n: u32) -> (r: String)
    ensures
        r@ == decimal(n as nat),
{
    n.to_string()
}

/// The file name of the cursor image of identity `id`.
pub fn cursor_file_name(id: u32) -> (r: String)
    ensures
        r@ == file_name_for(id as nat),
{
    let digits = decimal_text(id);
    let mut name = String::from_str("cursor_");
    name.append(digits.as_str());
    name.append(".png");
    proof {
        reveal_strlit("cursor_");
        reveal_strlit(".png");
    }
    name
}

} // verus!
