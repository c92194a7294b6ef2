use vstd::prelude::*;

verus! {

/// A mandatory field that was absent from a line or a section.
#[derive(Clone, Copy, Debug, PartialEq, Eq, Structural)]
pub enum Field {
    Od,
    Cs,
    Hp,
    SliderMultiplier,
    TickRate,
    TimingPointTime,
    BeatLen,
    XPos,
    YPos,
    HitObjectTime,
    HitObjectKind,
    ControlPoints,
    Repeats,
    PixelLen,
    SpinnerEndTime,
    HoldEndTime,
}

/// The name under which a field is reported.
pub open spec fn field_name(f: Field) -> Seq<char> {
    match f {
        Field::Od => "od"@,
        Field::Cs => "cs"@,
        Field::Hp => "hp"@,
        Field::SliderMultiplier => "sv"@,
        Field::TickRate => "tick rate"@,
        Field::TimingPointTime => "timing point time"@,
        Field::BeatLen => "beat len"@,
        Field::XPos => "x pos"@,
        Field::YPos => "y pos"@,
        Field::HitObjectTime => "hitobject time"@,
        Field::HitObjectKind => "hitobject kind"@,
        Field::ControlPoints => "control points"@,
        Field::Repeats => "repeats"@,
        Field::PixelLen => "pixel len"@,
        Field::SpinnerEndTime => "spinner endtime"@,
        Field::HoldEndTime => "hold endtime"@,
    }
}

impl Field {
    /// The name under which the field is reported.
    pub fn name(&self) -> (r: &'static str)
        ensures
            r@ == field_name(*self),
    {
        match self {
            Field::Od => "od",
            Field::Cs => "cs",
            Field::Hp => "hp",
            Field::SliderMultiplier => "sv",
            Field::TickRate => "tick rate",
            Field::TimingPointTime => "timing point time",
            Field::BeatLen => "beat len",
            Field::XPos => "x pos",
            Field::YPos => "y pos",
            Field::HitObjectTime => "hitobject time",
            Field::HitObjectKind => "hitobject kind",
            Field::ControlPoints => "control points",
            Field::Repeats => "repeats",
            Field::PixelLen => "pixel len",
            Field::SpinnerEndTime => "spinner endtime",
            Field::HoldEndTime => "hold endtime",
        }
    }
}

/// Every way in which parsing a beatmap can fail.
#[derive(Clone, Copy, Debug, PartialEq, Eq, Structural)]
pub enum ParseError {
    /// The first meaningful line does not hold `osu file format v`.
    IncorrectFileHeader,
    /// A `key: value` line without a colon.
    BadLine,
    /// A mandatory field is absent.
    MissingField(Field),
    /// A malformed integer literal, or one too large for its field.
    InvalidInteger,
    /// A malformed decimal literal.
    InvalidFloat,
    /// A decimal value that is not finite, or too large to be held.
    InvalidDecimalNumber,
    /// A `Mode` value other than 0, 1, 2 or 3.
    InvalidMode,
    /// A hit object whose type bits name no known kind.
    UnknownHitObjectKind,
    /// A slider control point that is not of the form `x:y`.
    InvalidCurvePoints,
    /// A slider with more than 9000 repeats.
    TooManyRepeats,
}

} // verus!
