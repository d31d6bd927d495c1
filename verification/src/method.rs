//! The corruption methods and their names.

use vstd::prelude::*;

verus! {

/// A way to corrupt a run of bits.
#[derive(Debug, Clone, Copy, PartialEq, Eq, Structural)]
pub enum KorruptionMethod {
    /// Sets every bit of a part to zero.
    Zeros,
    /// Sets every bit of a part to one.
    Ones,
    /// Inverts every bit of a part.
    Flip,
    /// Exchanges two parts, bit by bit.
    Swap,
    /// Reverses the order of the bits of a part.
    Reverse,
    /// Repeats the pattern of a part over the bits that follow it.
    Repeat,
    /// Removes a part, so that the buffer gets shorter.
    Shorten,
    /// Inverts each bit of a part with probability one half.
    AddNoise,
    /// Combines a second part into a first one with exclusive or.
    Interference,
    /// Rotates the bits of a part to the right.
    RRotate,
    /// Rotates the bits of a part to the left.
    LRotate,
}

/// The lower-case form of a text, as `str::to_lowercase` computes it.
pub uninterp spec fn lowercased(text: Seq<char>) -> Seq<char>;

/// `str::eq` says whether two pieces of text are the same, character by
/// character.
pub assume_specification[ <str as PartialEq>::eq ](a: &str, b: &str) -> (same: bool)
    ensures
        same == (a@ == b@),
;

/// `str::to_lowercase` returns the lower-case form of a text. The contract
/// claims only that the result is a function of the text.
pub assume_specification[ str::to_lowercase ](text: &str) -> (lower: String)
    ensures
        lower@ == lowercased(text@),
;

impl KorruptionMethod {
    /// The name of the method, in lower case.
    pub open spec fn name_text(self) -> Seq<char> {
        match self {
            KorruptionMethod::Zeros => "zeros"@,
            KorruptionMethod::Ones => "ones"@,
            KorruptionMethod::Flip => "flip"@,
            KorruptionMethod::Swap => "swap"@,
            KorruptionMethod::Reverse => "reverse"@,
            KorruptionMethod::Repeat => "repeat"@,
            KorruptionMethod::Shorten => "shorten"@,
            KorruptionMethod::AddNoise => "addnoise"@,
            KorruptionMethod::Interference => "interference"@,
            KorruptionMethod::RRotate => "rrotate"@,
            KorruptionMethod::LRotate => "lrotate"@,
        }
    }

    /// The method that `name` names, where `name` is in lower case.
    pub open spec fn named(name: Seq<char>) -> Option<KorruptionMethod> {
        if name == "zeros"@ {
            Some(KorruptionMethod::Zeros)
        } else if name == "ones"@ {
            Some(KorruptionMethod::Ones)
        } else if name == "flip"@ {
            Some(KorruptionMethod::Flip)
        } else if name == "swap"@ {
            Some(KorruptionMethod::Swap)
        } else if name == "reverse"@ {
            Some(KorruptionMethod::Reverse)
        } else if name == "repeat"@ {
            Some(KorruptionMethod::Repeat)
        } else if name == "shorten"@ {
            Some(KorruptionMethod::Shorten)
        } else if name == "addnoise"@ {
            Some(KorruptionMethod::AddNoise)
        } else if name == "interference"@ {
            Some(KorruptionMethod::Interference)
        } else if name == "rrotate"@ {
            Some(KorruptionMethod::RRotate)
        } else if name == "lrotate"@ {
            Some(KorruptionMethod::LRotate)
        } else {
            None
        }
    }

    /// The name of the method, in lower case.
    pub fn name(self) -> (text: &'static str)
        ensures
            text@ == self.name_text(),
    {
        match self {
            KorruptionMethod::Zeros => "zeros",
            KorruptionMethod::Ones => "ones",
            KorruptionMethod::Flip => "flip",
            KorruptionMethod::Swap => "swap",
            KorruptionMethod::Reverse => "reverse",
            KorruptionMethod::Repeat => "repeat",
            KorruptionMethod::Shorten => "shorten",
            KorruptionMethod::AddNoise => "addnoise",
            KorruptionMethod::Interference => "interference",
            KorruptionMethod::RRotate => "rrotate",
            KorruptionMethod::LRotate => "lrotate",
        }
    }

    /// Finds the method that `name` names. The name must be in lower case.
    pub fn from_lowercase(name: &str) -> (method: Option<KorruptionMethod>)
        ensures
            method == Self::named(name@),
    {
        if name.eq("zeros") {
            Some(KorruptionMethod::Zeros)
        } else if name.eq("ones") {
            Some(KorruptionMethod::Ones)
        } else if name.eq("flip") {
            Some(KorruptionMethod::Flip)
        } else if name.eq("swap") {
            Some(KorruptionMethod::Swap)
        } else if name.eq("reverse") {
            Some(KorruptionMethod::Reverse)
        } else if name.eq("repeat") {
            Some(KorruptionMethod::Repeat)
        } else if name.eq("shorten") {
            Some(KorruptionMethod::Shorten)
        } else if name.eq("addnoise") {
            Some(KorruptionMethod::AddNoise)
        } else if name.eq("interference") {
            Some(KorruptionMethod::Interference)
        } else if name.eq("rrotate") {
            Some(KorruptionMethod::RRotate)
        } else if name.eq("lrotate") {
            Some(KorruptionMethod::LRotate)
        } else {
            None
        }
    }

    /// Finds the method that `raw` names, whatever the case of its letters.
    pub fn from_name(raw: &str) -> (method: Option<KorruptionMethod>)
        ensures
            method == Self::named(lowercased(raw@)),
    {
        let lower: String = raw.to_lowercase();
        Self::from_lowercase(lower.as_str())
    }

    /// Every method is found again by its name.
    pub proof fn lemma_name_round_trip(self)
        ensures
            Self::named(self.name_text()) == Some(self),
    {
        reveal_strlit("zeros");
        reveal_strlit("ones");
        reveal_strlit("flip");
        reveal_strlit("swap");
        reveal_strlit("reverse");
        reveal_strlit("repeat");
        reveal_strlit("shorten");
        reveal_strlit("addnoise");
        reveal_strlit("interference");
        reveal_strlit("rrotate");
        reveal_strlit("lrotate");
        assert("zeros"@.len() == 5 && "ones"@.len() == 4 && "flip"@.len() == 4 && "swap"@.len()
            == 4);
        assert("reverse"@.len() == 7 && "repeat"@.len() == 6 && "shorten"@.len() == 7);
        assert("addnoise"@.len() == 8 && "interference"@.len() == 12);
        assert("rrotate"@.len() == 7 && "lrotate"@.len() == 7);
        assert("ones"@[0] == 'o' && "flip"@[0] == 'f' && "swap"@[0] == 's');
        assert("reverse"@[0] == 'r' && "reverse"@[1] == 'e' && "shorten"@[0] == 's');
        assert("rrotate"@[0] == 'r' && "rrotate"@[1] == 'r' && "lrotate"@[0] == 'l');
    }
}

} // verus!
