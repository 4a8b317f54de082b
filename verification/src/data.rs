//! The closed enumerations of the schema and the parsing of a
//! characteristic's label.
use crate::text::same_text;
use vstd::prelude::*;

verus! {

/// The difficulty tiers of a chart.
#[derive(Clone, Copy, Debug, PartialEq, Eq, Hash, Structural)]
pub enum SongDiffs {
    Easy,
    Normal,
    Hard,
    Expert,
    ExpertPlus,
}

/// The gameplay mode of a chart.
#[derive(Clone, Copy, Debug, PartialEq, Eq, Hash, Structural)]
pub enum BeatStarCharacteristics {
    Unknown,
    Standard,
    OneSaber,
    NoArrows,
    Lightshow,
    Degree90,
    Degree360,
    Lawless,
}

/// The lower-case form that `str::to_lowercase` gives a text.
pub uninterp spec fn lowercase(text: Seq<char>) -> Seq<char>;

/// `str::to_lowercase`: the lower-case form of the text, which depends on
/// the text alone.
#[verifier::external_body]
fn to_lowercase(text: &str) -> (r: String)
    ensures
        r@ == lowercase(text@),
{
    text.to_lowercase()
}

/// The characteristic that a label in lower case names, if it names one.
pub open spec fn characteristic_named(lower: Seq<char>) -> Option<BeatStarCharacteristics> {
    if lower == "unknown"@ {
        Some(BeatStarCharacteristics::Unknown)
    } else if lower == "standard"@ {
        Some(BeatStarCharacteristics::Standard)
    } else if lower == "onesaber"@ {
        Some(BeatStarCharacteristics::OneSaber)
    } else if lower == "noarrows"@ {
        Some(BeatStarCharacteristics::NoArrows)
    } else if lower == "lightshow"@ {
        Some(BeatStarCharacteristics::Lightshow)
    } else if lower == "degree90"@ || lower == "90degree"@ {
        Some(BeatStarCharacteristics::Degree90)
    } else if lower == "degree360"@ || lower == "360degree"@ {
        Some(BeatStarCharacteristics::Degree360)
    } else if lower == "lawless"@ {
        Some(BeatStarCharacteristics::Lawless)
    } else {
        None
    }
}

/// The characteristic that a label names, whatever the case of its letters.
pub open spec fn characteristic_of(label: Seq<char>) -> Option<BeatStarCharacteristics> {
    characteristic_named(lowercase(label))
}

impl BeatStarCharacteristics {
    /// The variant's name.
    pub open spec fn name(self) -> Seq<char> {
        match self {
            BeatStarCharacteristics::Unknown => "Unknown"@,
            BeatStarCharacteristics::Standard => "Standard"@,
            BeatStarCharacteristics::OneSaber => "OneSaber"@,
            BeatStarCharacteristics::NoArrows => "NoArrows"@,
            BeatStarCharacteristics::Lightshow => "Lightshow"@,
            BeatStarCharacteristics::Degree90 => "Degree90"@,
            BeatStarCharacteristics::Degree360 => "Degree360"@,
            BeatStarCharacteristics::Lawless => "Lawless"@,
        }
    }

    /// The variant's name as text.
    pub fn to_string(&self) -> (r: String)
        ensures
            r@ == self.name(),
    {
        match self {
            BeatStarCharacteristics::Unknown => "Unknown".to_owned(),
            BeatStarCharacteristics::Standard => "Standard".to_owned(),
            BeatStarCharacteristics::OneSaber => "OneSaber".to_owned(),
            BeatStarCharacteristics::NoArrows => "NoArrows".to_owned(),
            BeatStarCharacteristics::Lightshow => "Lightshow".to_owned(),
            BeatStarCharacteristics::Degree90 => "Degree90".to_owned(),
            BeatStarCharacteristics::Degree360 => "Degree360".to_owned(),
            BeatStarCharacteristics::Lawless => "Lawless".to_owned(),
        }
    }

    /// Reads a label that is already in lower case. A label that names no
    /// characteristic is an error, never `Unknown`.
    pub fn from_lowercase(lower: &str) -> (r: Result<BeatStarCharacteristics, ()>)
        ensures
            r is Ok <==> characteristic_named(lower@) is Some,
            r matches Ok(c) ==> characteristic_named(lower@) == Some(c),
    {
        if same_text(lower, "unknown") {
            Ok(BeatStarCharacteristics::Unknown)
        } else if same_text(lower, "standard") {
            Ok(BeatStarCharacteristics::Standard)
        } else if same_text(lower, "onesaber") {
            Ok(BeatStarCharacteristics::OneSaber)
        } else if same_text(lower, "noarrows") {
            Ok(BeatStarCharacteristics::NoArrows)
        } else if same_text(lower, "lightshow") {
            Ok(BeatStarCharacteristics::Lightshow)
        } else if same_text(lower, "degree90") || same_text(lower, "90degree") {
            Ok(BeatStarCharacteristics::Degree90)
        } else if same_text(lower, "degree360") || same_text(lower, "360degree") {
            Ok(BeatStarCharacteristics::Degree360)
        } else if same_text(lower, "lawless") {
            Ok(BeatStarCharacteristics::Lawless)
        } else {
            Err(())
        }
    }

    /// Reads a label without regard to the case of its letters.
    pub fn from_str(input: &str) -> (r: Result<BeatStarCharacteristics, ()>)
        ensures
            r is Ok <==> characteristic_of(input@) is Some,
            r matches Ok(c) ==> characteristic_of(input@) == Some(c),
    {
        let lower = to_lowercase(input);
        BeatStarCharacteristics::from_lowercase(lower.as_str())
    }
}

impl core::str::FromStr for BeatStarCharacteristics {
    type Err = ();

    /// Reads a label without regard to the case of its letters.
    fn from_str(input: &str) -> (r: Result<BeatStarCharacteristics, ()>) {
        let lower = to_lowercase(input);
        BeatStarCharacteristics::from_lowercase(lower.as_str())
    }
}

impl Default for BeatStarCharacteristics {
    fn default() -> (r: Self)
        ensures
            r == BeatStarCharacteristics::Unknown,
    {
        BeatStarCharacteristics::Unknown
    }
}

} // verus!
