//! What controls the growth of the memory map.

use vstd::arithmetic::power2::*;
use vstd::prelude::*;
use vstd::string::*;

use crate::float::Binary32;

verus! {

/// The information that is sent in a callback when a resize happens.
#[derive(Debug, Clone, Copy)]
pub struct DatabaseResizeInfo {
    /// The size of the database before the resize.
    pub old_size: u64,
    /// The size of the database after the resize (current size).
    pub new_size: u64,
    /// The estimated occupied size before the resize happened.
    pub occupied_size_before_resize: u64,
}

/// Whether a number is a fraction, from 0 to 1 with both ends.
pub open spec fn is_fraction(number: Binary32) -> bool {
    !number.is_nan() && 0 <= number.value() <= pow2(149)
}

/// How full the database may get before a resize is triggered, as a fraction of the map size.
///
/// The value is a fraction from 0 to 1, so 90% full is 0.9, and not 90. A percent-shaped value
/// would never be crossed by a real fill fraction, so it would silently switch off fill-triggered
/// resizing; no value of this type holds one.
#[derive(Debug, Clone, Copy, PartialEq)]
pub struct ResizeTriggerFraction {
    fraction: Binary32,
}

impl View for ResizeTriggerFraction {
    type V = Binary32;

    closed spec fn view(&self) -> Binary32 {
        self.fraction
    }
}

impl ResizeTriggerFraction {
    #[verifier::type_invariant]
    spec fn holds_fraction(self) -> bool {
        is_fraction(self.fraction)
    }

    /// Builds a trigger fraction from a value from 0 to 1, both ends included. Anything else, and
    /// what is not a number, is rejected.
    pub fn new(fraction: Binary32) -> (result: Result<Self, InvalidResizeTriggerFraction>)
        ensures
            match result {
                Ok(trigger) => is_fraction(fraction) && trigger@ == fraction,
                Err(error) => !is_fraction(fraction) && error@ == fraction,
            },
    {
        if fraction.is_in_unit_range() {
            Ok(ResizeTriggerFraction { fraction })
        } else {
            Err(InvalidResizeTriggerFraction { rejected: fraction })
        }
    }

    /// The fill fraction, guaranteed to be from 0 to 1.
    pub fn as_f32(&self) -> (fraction: Binary32)
        ensures
            fraction == self@,
            is_fraction(fraction),
    {
        proof {
            use_type_invariant(self);
        }
        self.fraction
    }

    /// The trigger that crosses at nine tenths.
    fn nine_tenths() -> (trigger: Self)
        ensures
            trigger@.is_nearest(9, 10),
            is_fraction(trigger@),
    {
        let fraction = Binary32 { bits: 0x3f66_6666 };
        proof {
            crate::float::lemma_nine_tenths();
        }
        ResizeTriggerFraction { fraction }
    }
}

/// The error returned when a value offered as a [`ResizeTriggerFraction`] is not from 0 to 1.
#[derive(Debug, Clone, Copy, PartialEq)]
pub struct InvalidResizeTriggerFraction {
    rejected: Binary32,
}

impl View for InvalidResizeTriggerFraction {
    type V = Binary32;

    closed spec fn view(&self) -> Binary32 {
        self.rejected
    }
}

impl InvalidResizeTriggerFraction {
    /// The value that was rejected.
    pub fn rejected(&self) -> (rejected: Binary32)
        ensures
            rejected == self@,
    {
        self.rejected
    }

    /// The message of this error, given the rejected value as it is shown to a reader.
    pub fn message(&self, rejected: &str) -> (message: String)
        ensures
            message@ == "lmdb: Resize trigger must be a fraction within [0, 1], but "@ + rejected@
                + " was given. This is a fraction and not a percent, so 90% full is 0.9"@,
    {
        let mut message = "lmdb: Resize trigger must be a fraction within [0, 1], but ".to_owned();
        message.append(rejected);
        message.append(" was given. This is a fraction and not a percent, so 90% full is 0.9");
        message
    }
}

/// What is wrong with settings that cannot be used.
#[derive(Debug, Clone, Copy, PartialEq, Eq, Structural)]
pub enum InvalidResizeSettings {
    /// The smallest step is zero.
    MinStepZero,
    /// The largest step is zero.
    MaxStepZero,
    /// The smallest step is larger than the largest.
    MinStepAboveMaxStep,
    /// The ratio is zero.
    RatioZero,
}

impl InvalidResizeSettings {
    /// The text that names this fault.
    pub open spec fn text(self) -> Seq<char> {
        match self {
            InvalidResizeSettings::MinStepZero => "lmdb: Min step must be positive"@,
            InvalidResizeSettings::MaxStepZero => "lmdb: Max step must be positive"@,
            InvalidResizeSettings::MinStepAboveMaxStep => "lmdb: Min step must be <= max step"@,
            InvalidResizeSettings::RatioZero => "lmdb: Resize ratio must be > 0"@,
        }
    }

    /// The message that names this fault.
    pub fn message(&self) -> (message: &'static str)
        ensures
            message@ == self.text(),
    {
        match self {
            InvalidResizeSettings::MinStepZero => "lmdb: Min step must be positive",
            InvalidResizeSettings::MaxStepZero => "lmdb: Max step must be positive",
            InvalidResizeSettings::MinStepAboveMaxStep => "lmdb: Min step must be <= max step",
            InvalidResizeSettings::RatioZero => "lmdb: Resize ratio must be > 0",
        }
    }
}

/// Settings that control resizing the database.
#[derive(Debug, Clone, Copy)]
pub struct DatabaseResizeSettings {
    /// The minimum amount to increase the size of the database by.
    pub min_resize_step: usize,
    /// The maximum amount to increase the size of the database by.
    pub max_resize_step: usize,
    /// When a resize is needed and no size is provided, this will be the size ratio to be added
    /// compared to the previous size: 100 means 100%, which will double the map size.
    pub default_resize_ratio_percentage: u32,
    /// When the occupied part of the map crosses this fraction, a resize will be triggered.
    pub resize_trigger_fraction: ResizeTriggerFraction,
}

impl Default for DatabaseResizeSettings {
    fn default() -> (settings: Self)
        ensures
            settings.is_default(),
            settings.is_valid(),
    {
        Self::make_default()
    }
}

impl DatabaseResizeSettings {
    /// Whether these settings can be used: steps and ratio are positive, and the smallest step is
    /// not above the largest. The trigger fraction is in its range by its type.
    pub open spec fn is_valid(self) -> bool {
        &&& 0 < self.min_resize_step <= self.max_resize_step
        &&& 0 < self.default_resize_ratio_percentage
        &&& is_fraction(self.resize_trigger_fraction@)
    }

    /// Whether these are the settings of an environment that was given none: steps of 256 MB up to
    /// 2 GB, doubling, triggered at nine tenths full.
    pub open spec fn is_default(self) -> bool {
        &&& self.min_resize_step == 0x1000_0000
        &&& self.max_resize_step == 0x8000_0000
        &&& self.default_resize_ratio_percentage == 100
        &&& self.resize_trigger_fraction@.is_nearest(9, 10)
    }

    /// The settings of an environment that was given none.
    pub fn make_default() -> (settings: Self)
        ensures
            settings.is_default(),
            settings.is_valid(),
    {
        DatabaseResizeSettings {
            min_resize_step: 0x1000_0000,
            max_resize_step: 0x8000_0000,
            default_resize_ratio_percentage: 100,
            resize_trigger_fraction: ResizeTriggerFraction::nine_tenths(),
        }
    }

    /// Checks that the settings can be used, and names the first fault where they cannot.
    pub fn validate(&self) -> (result: Result<(), InvalidResizeSettings>)
        ensures
            result is Ok <==> self.is_valid(),
            result == Err::<(), _>(InvalidResizeSettings::MinStepZero) <==> self.min_resize_step
                == 0,
            result == Err::<(), _>(InvalidResizeSettings::MaxStepZero) <==> self.min_resize_step
                != 0 && self.max_resize_step == 0,
            result == Err::<(), _>(InvalidResizeSettings::MinStepAboveMaxStep) <==> 0
                < self.max_resize_step < self.min_resize_step,
            result == Err::<(), _>(InvalidResizeSettings::RatioZero) <==> 0 < self.min_resize_step
                <= self.max_resize_step && self.default_resize_ratio_percentage == 0,
    {
        proof {
            use_type_invariant(&self.resize_trigger_fraction);
        }
        if self.min_resize_step == 0 {
            Err(InvalidResizeSettings::MinStepZero)
        } else if self.max_resize_step == 0 {
            Err(InvalidResizeSettings::MaxStepZero)
        } else if self.min_resize_step > self.max_resize_step {
            Err(InvalidResizeSettings::MinStepAboveMaxStep)
        } else if self.default_resize_ratio_percentage == 0 {
            Err(InvalidResizeSettings::RatioZero)
        } else {
            Ok(())
        }
    }
}

/// Settings can be used just where the ratio is not nothing and, whatever size is asked for, there is
/// a step within them that is nearest to it, and no such step is nothing.
pub proof fn usable_settings_leave_room_for_a_step(settings: DatabaseResizeSettings)
    requires
        is_fraction(settings.resize_trigger_fraction@),
    ensures
        settings.is_valid() <==> {
            &&& settings.default_resize_ratio_percentage != 0
            &&& forall|asked: int| #[trigger] has_step_for(asked, settings)
            &&& forall|step: int, asked: int| #[trigger]
                is_step_for(step, asked, settings) ==> step != 0
        },
{
    assert forall|asked: int| settings.min_resize_step <= settings.max_resize_step implies
        #[trigger] has_step_for(asked, settings) by {
        let step = if asked < settings.min_resize_step {
            settings.min_resize_step as int
        } else if asked > settings.max_resize_step {
            settings.max_resize_step as int
        } else {
            asked
        };
        assert(is_step_for(step, asked, settings));
    }
    if settings.max_resize_step < settings.min_resize_step {
        assert(!has_step_for(0, settings));
    } else {
        let least = settings.min_resize_step as int;
        assert(is_step_for(least, least, settings));
    }
}

/// Whether there is a step for what is asked for.
pub open spec fn has_step_for(asked: int, settings: DatabaseResizeSettings) -> bool {
    exists|step: int| is_step_for(step, asked, settings)
}

/// Whether a step is within the settings, and no other within them is nearer to what is asked for.
pub open spec fn is_step_for(step: int, asked: int, settings: DatabaseResizeSettings) -> bool {
    &&& settings.min_resize_step <= step <= settings.max_resize_step
    &&& asked < step ==> step == settings.min_resize_step
    &&& asked > step ==> step == settings.max_resize_step
}

/// Settings that nobody gave are steps of at least 256 MB and at most eight times that, doubling the
/// map where no size is asked for, once it is nine tenths full.
pub proof fn default_settings_double_the_map(settings: DatabaseResizeSettings)
    requires
        settings.is_default(),
    ensures
        settings.min_resize_step == 256 * 1024 * 1024,
        settings.max_resize_step == 8 * settings.min_resize_step,
        settings.default_resize_ratio_percentage == 100,
        settings.resize_trigger_fraction@.is_nearest(9, 10),
        settings.is_valid(),
{
    let nine = Binary32 { bits: 0x3f66_6666 };
    crate::float::lemma_nine_tenths();
    crate::float::rounding_is_unique(settings.resize_trigger_fraction@, nine, 9, 10);
}

} // verus!
