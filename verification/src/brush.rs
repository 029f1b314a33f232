//! Brushes: a variant and its settings, from which stamps are made.

use vstd::prelude::*;
use crate::stamp::{
    soft_circle, soft_circle_stamp, stamp_covers, stamp_pixel, Stamp, MAX_RADIUS,
};

verus! {

/// The radius of the default brush: 10 pixels.
pub const DEFAULT_RADIUS: u32 = 2560;

/// The spacing of the default brush: a tenth of the radius.
pub const DEFAULT_SPACING: u32 = 26;

/// The hardness of the default brush: a tenth of the radius.
pub const DEFAULT_HARDNESS: u8 = 26;

/// The opacity of the default brush: full strength.
pub const DEFAULT_OPACITY: u8 = 255;

/// The settings that every brush has.
pub struct BrushBaseSettings {
    pub id: String,
    /// In 1/256 of a pixel.
    pub radius: u32,
    /// The gap between two stamps of a stroke, in 1/256 of the radius.
    pub spacing: u32,
    /// In 1/255 of full strength.
    pub opacity: u8,
}

pub enum Brush {
    SoftCircle {
        /// The part of the radius that stays fully opaque, in 1/255.
        hardness: u8,
        base: BrushBaseSettings,
    },
}

/// Why a brush cannot draw.
#[derive(Clone, Copy, Debug, PartialEq, Eq, Structural)]
pub enum BrushError {
    /// The radius is zero or above `MAX_RADIUS`.
    InvalidRadius,
    /// The spacing is zero.
    InvalidSpacing,
}

impl Default for Brush {
    /// A soft circle of 10 pixels radius at full opacity, with a tenth of
    /// the radius as hard core and as spacing.
    fn default() -> (brush: Self)
        ensures
            brush.spec_radius() == DEFAULT_RADIUS,
            brush.spec_spacing() == DEFAULT_SPACING,
            brush.spec_opacity() == DEFAULT_OPACITY,
            brush.spec_hardness() == DEFAULT_HARDNESS,
            brush.spec_id() == "soft-circle"@,
            brush.is_valid(),
    {
        Self::SoftCircle {
            hardness: DEFAULT_HARDNESS,
            base: BrushBaseSettings {
                id: "soft-circle".to_string(),
                radius: DEFAULT_RADIUS,
                spacing: DEFAULT_SPACING,
                opacity: DEFAULT_OPACITY,
            },
        }
    }
}

impl Brush {
    pub open spec fn spec_id(&self) -> Seq<char> {
        match self {
            Self::SoftCircle { base, .. } => base.id@,
        }
    }

    pub open spec fn spec_hardness(&self) -> u8 {
        match self {
            Self::SoftCircle { hardness, .. } => *hardness,
        }
    }

    pub open spec fn spec_spacing(&self) -> u32 {
        match self {
            Self::SoftCircle { base, .. } => base.spacing,
        }
    }

    pub open spec fn spec_radius(&self) -> u32 {
        match self {
            Self::SoftCircle { base, .. } => base.radius,
        }
    }

    pub open spec fn spec_opacity(&self) -> u8 {
        match self {
            Self::SoftCircle { base, .. } => base.opacity,
        }
    }

    /// The radius can be drawn with.
    pub open spec fn has_valid_radius(&self) -> bool {
        0 < self.spec_radius() <= MAX_RADIUS
    }

    /// The brush can draw: its radius is above zero and at most
    /// `MAX_RADIUS`, and its spacing is above zero.
    pub open spec fn is_valid(&self) -> bool {
        self.has_valid_radius() && self.spec_spacing() > 0
    }

    /// The stamp that the brush makes in the given colour.
    pub open spec fn stamp_model(&self, color: Seq<u8>) -> Seq<crate::stamp::PixelModel> {
        soft_circle_stamp(
            self.spec_radius() as nat,
            self.spec_hardness(),
            self.spec_opacity(),
            color,
        )
    }

    /// `Ok` for a brush that can draw, else the setting that rules it
    /// out; the radius is looked at first.
    pub open spec fn validate_model(&self) -> Result<(), BrushError> {
        if !self.has_valid_radius() {
            Err(BrushError::InvalidRadius)
        } else if self.spec_spacing() == 0 {
            Err(BrushError::InvalidSpacing)
        } else {
            Ok(())
        }
    }

    /// Says whether the brush can draw, and if not, which setting rules
    /// it out; the radius is looked at first.
    pub fn validate(&self) -> (result: Result<(), BrushError>)
        ensures
            result == self.validate_model(),
            result is Ok <==> self.is_valid(),
    {
        if self.radius() == 0 || self.radius() > MAX_RADIUS {
            Err(BrushError::InvalidRadius)
        } else if self.spacing() == 0 {
            Err(BrushError::InvalidSpacing)
        } else {
            Ok(())
        }
    }

    /// The brush itself if it can draw, else the setting that rules it
    /// out. A brush that was built or changed passes through here before
    /// it is drawn with.
    pub fn checked(self) -> (result: Result<Brush, BrushError>)
        ensures
            match result {
                Ok(brush) => self.is_valid() && brush == self,
                Err(error) => self.validate_model() == Err::<(), BrushError>(error),
            },
    {
        match self.validate() {
            Ok(_) => Ok(self),
            Err(error) => Err(error),
        }
    }

    /// Gets a stamp for the current brush settings
    #[must_use]
    pub fn compute_stamp(&self, color: [u8; 3]) -> (stamp: Stamp)
        requires
            self.has_valid_radius(),
        ensures
            stamp@ == self.stamp_model(color@),
            forall|i: int|
                0 <= i < stamp@.len() ==> stamp_covers(
                    (#[trigger] stamp@[i]).x,
                    stamp@[i].y,
                    self.spec_radius() as nat,
                    self.spec_hardness(),
                    self.spec_opacity(),
                ) && stamp@[i] == stamp_pixel(
                    stamp@[i].x,
                    stamp@[i].y,
                    self.spec_radius() as nat,
                    self.spec_hardness(),
                    self.spec_opacity(),
                    color@,
                ),
            self.spec_hardness() == 255 ==> forall|i: int|
                0 <= i < stamp@.len() ==> (#[trigger] stamp@[i]).alpha == self.spec_opacity(),
    {
        match self {
            Self::SoftCircle { hardness, base } => soft_circle(
                base.radius,
                *hardness,
                base.opacity,
                color,
            ),
        }
    }

    //==========================================================================
    // accessor methods
    //==========================================================================
    #[must_use]
    #[verifier::when_used_as_spec(spec_spacing)]
    pub fn spacing(&self) -> (spacing: u32)
        ensures
            spacing == self.spec_spacing(),
    {
        match self {
            Self::SoftCircle { base, .. } => base.spacing,
        }
    }

    #[must_use]
    #[verifier::when_used_as_spec(spec_radius)]
    pub fn radius(&self) -> (radius: u32)
        ensures
            radius == self.spec_radius(),
    {
        match self {
            Self::SoftCircle { base, .. } => base.radius,
        }
    }

    #[must_use]
    #[verifier::when_used_as_spec(spec_opacity)]
    pub fn opacity(&self) -> (opacity: u8)
        ensures
            opacity == self.spec_opacity(),
    {
        match self {
            Self::SoftCircle { base, .. } => base.opacity,
        }
    }

    #[must_use]
    #[verifier::when_used_as_spec(spec_hardness)]
    pub fn hardness(&self) -> (hardness: u8)
        ensures
            hardness == self.spec_hardness(),
    {
        match self {
            Self::SoftCircle { hardness, .. } => *hardness,
        }
    }

    //==========================================================================
    // builder methods
    //==========================================================================
    #[must_use]
    pub fn with_spacing(self, spacing: u32) -> (brush: Self)
        ensures
            brush.spec_spacing() == spacing,
            brush.spec_radius() == self.spec_radius(),
            brush.spec_opacity() == self.spec_opacity(),
            brush.spec_hardness() == self.spec_hardness(),
            brush.spec_id() == self.spec_id(),
    {
        match self {
            Self::SoftCircle { hardness, base } => Self::SoftCircle {
                hardness,
                base: BrushBaseSettings {
                    id: base.id,
                    radius: base.radius,
                    spacing,
                    opacity: base.opacity,
                },
            },
        }
    }

    #[must_use]
    pub fn with_radius(self, radius: u32) -> (brush: Self)
        ensures
            brush.spec_radius() == radius,
            brush.spec_spacing() == self.spec_spacing(),
            brush.spec_opacity() == self.spec_opacity(),
            brush.spec_hardness() == self.spec_hardness(),
            brush.spec_id() == self.spec_id(),
    {
        match self {
            Self::SoftCircle { hardness, base } => Self::SoftCircle {
                hardness,
                base: BrushBaseSettings {
                    id: base.id,
                    radius,
                    spacing: base.spacing,
                    opacity: base.opacity,
                },
            },
        }
    }

    #[must_use]
    pub fn with_opacity(self, opacity: u8) -> (brush: Self)
        ensures
            brush.spec_opacity() == opacity,
            brush.spec_radius() == self.spec_radius(),
            brush.spec_spacing() == self.spec_spacing(),
            brush.spec_hardness() == self.spec_hardness(),
            brush.spec_id() == self.spec_id(),
    {
        match self {
            Self::SoftCircle { hardness, base } => Self::SoftCircle {
                hardness,
                base: BrushBaseSettings {
                    id: base.id,
                    radius: base.radius,
                    spacing: base.spacing,
                    opacity,
                },
            },
        }
    }

    #[must_use]
    pub fn with_hardness(self, hardness: u8) -> (brush: Self)
        ensures
            brush.spec_hardness() == hardness,
            brush.spec_radius() == self.spec_radius(),
            brush.spec_spacing() == self.spec_spacing(),
            brush.spec_opacity() == self.spec_opacity(),
            brush.spec_id() == self.spec_id(),
    {
        match self {
            Self::SoftCircle { base, .. } => Self::SoftCircle { hardness, base },
        }
    }
}

} // verus!
