//! The format-independent scene: an ordered list of splats, and the two
//! capabilities that every codec offers.

use crate::encoding::decimal;
use crate::error::ConversionError;
use vstd::prelude::*;
use vstd::string::*;

verus! {

/// How many higher-order coefficients a splat carries in every format.
pub const REST_COEFFICIENTS: usize = 45;

/// One point of a scene. Every scalar is the bit pattern of an IEEE-754
/// single-precision number.
#[derive(Debug, Clone)]
pub struct GaussianSplat {
    /// World-space x, y, z.
    pub position: [u32; 3],
    /// Surface normal; zero where a format carries none.
    pub normal: [u32; 3],
    /// Base colour, one coefficient per channel, in the order R, G, B.
    pub spherical_harmonics_dc: [u32; 3],
    /// Higher-order colour coefficients, channel after channel: 15 for R,
    /// then 15 for G, then 15 for B.
    pub spherical_harmonics_rest: Vec<u32>,
    /// Opacity before the sigmoid.
    pub opacity: u32,
    /// Natural logarithm of the extent along each axis.
    pub scale: [u32; 3],
    /// Rotation quaternion in the order w, x, y, z.
    pub rotation: [u32; 4],
}

/// One point of a scene with every scalar written out as decimal text.
#[derive(Debug, Clone)]
pub struct SplatText {
    pub position: [String; 3],
    pub normal: [String; 3],
    pub spherical_harmonics_dc: [String; 3],
    pub spherical_harmonics_rest: Vec<String>,
    pub opacity: String,
    pub scale: [String; 3],
    pub rotation: [String; 4],
}

/// The mathematical value of a splat whose scalars are of type `T`.
pub struct SplatView<T> {
    pub position: Seq<T>,
    pub normal: Seq<T>,
    pub spherical_harmonics_dc: Seq<T>,
    pub spherical_harmonics_rest: Seq<T>,
    pub opacity: T,
    pub scale: Seq<T>,
    pub rotation: Seq<T>,
}

impl<T> SplatView<T> {
    /// The shape every decoded splat has: three-component vectors, a
    /// four-component rotation and 45 higher-order coefficients.
    pub open spec fn well_formed(self) -> bool {
        &&& self.position.len() == 3
        &&& self.normal.len() == 3
        &&& self.spherical_harmonics_dc.len() == 3
        &&& self.spherical_harmonics_rest.len() == REST_COEFFICIENTS
        &&& self.scale.len() == 3
        &&& self.rotation.len() == 4
    }

    /// The higher-order coefficients at their fixed number of 45: cut off
    /// after the 45th, filled up with `zero`.
    pub open spec fn rest_padded(self, zero: T) -> Seq<T> {
        Seq::new(
            REST_COEFFICIENTS as nat,
            |i: int|
                if i < self.spherical_harmonics_rest.len() {
                    self.spherical_harmonics_rest[i]
                } else {
                    zero
                },
        )
    }

    /// The scalars in the order of the row table: position, normal, base
    /// colour, opacity, scale, rotation, higher-order coefficients.
    pub open spec fn table_order(self, zero: T) -> Seq<T> {
        self.position + self.normal + self.spherical_harmonics_dc + seq![self.opacity] + self.scale
            + self.rotation + self.rest_padded(zero)
    }

    /// The scalars in the order of the polygon file: position, normal, base
    /// colour, higher-order coefficients, opacity, scale, rotation.
    pub open spec fn polygon_order(self, zero: T) -> Seq<T> {
        self.position + self.normal + self.spherical_harmonics_dc + self.rest_padded(zero) + seq![
            self.opacity,
        ] + self.scale + self.rotation
    }
}

impl View for GaussianSplat {
    type V = SplatView<u32>;

    open spec fn view(&self) -> SplatView<u32> {
        SplatView {
            position: self.position@,
            normal: self.normal@,
            spherical_harmonics_dc: self.spherical_harmonics_dc@,
            spherical_harmonics_rest: self.spherical_harmonics_rest@,
            opacity: self.opacity,
            scale: self.scale@,
            rotation: self.rotation@,
        }
    }
}

/// The texts of a list of strings.
pub open spec fn texts(strings: Seq<String>) -> Seq<Seq<char>> {
    strings.map_values(|s: String| s@)
}

/// The texts of a list with one more string are the texts of the list,
/// then the text of the string.
pub proof fn lemma_texts_push(strings: Seq<String>, last: String)
    ensures
        texts(strings.push(last)) == texts(strings).push(last@),
{
    assert(texts(strings.push(last)) =~= texts(strings).push(last@));
}

impl View for SplatText {
    type V = SplatView<Seq<char>>;

    open spec fn view(&self) -> SplatView<Seq<char>> {
        SplatView {
            position: texts(self.position@),
            normal: texts(self.normal@),
            spherical_harmonics_dc: texts(self.spherical_harmonics_dc@),
            spherical_harmonics_rest: texts(self.spherical_harmonics_rest@),
            opacity: self.opacity@,
            scale: texts(self.scale@),
            rotation: texts(self.rotation@),
        }
    }
}

/// An ordered list of splats; every codec keeps the order.
#[derive(Debug, Clone)]
pub struct Scene {
    pub splats: Vec<GaussianSplat>,
}

impl View for Scene {
    type V = Seq<SplatView<u32>>;

    open spec fn view(&self) -> Seq<SplatView<u32>> {
        self.splats@.map_values(|s: GaussianSplat| s@)
    }
}

/// The views of a list of text splats.
pub open spec fn text_views(splats: Seq<SplatText>) -> Seq<SplatView<Seq<char>>> {
    splats.map_values(|s: SplatText| s@)
}

/// The names of the 17 scalars that are not higher-order coefficients, in
/// the order of the row table.
pub open spec fn scalar_names() -> Seq<Seq<char>> {
    seq![
        "x"@,
        "y"@,
        "z"@,
        "nx"@,
        "ny"@,
        "nz"@,
        "f_dc_0"@,
        "f_dc_1"@,
        "f_dc_2"@,
        "opacity"@,
        "scale_0"@,
        "scale_1"@,
        "scale_2"@,
        "rot_0"@,
        "rot_1"@,
        "rot_2"@,
        "rot_3"@,
    ]
}

/// The name of the higher-order coefficient `i`.
pub open spec fn rest_name(i: nat) -> Seq<char> {
    "f_rest_"@ + decimal(i)
}

/// The names of the 45 higher-order coefficients.
pub open spec fn rest_names() -> Seq<Seq<char>> {
    Seq::new(REST_COEFFICIENTS as nat, |i: int| rest_name(i as nat))
}

/// The 62 column names of the row table, in its order.
pub open spec fn table_names() -> Seq<Seq<char>> {
    scalar_names() + rest_names()
}

/// The 62 property names of the polygon file, in its order.
pub open spec fn polygon_names() -> Seq<Seq<char>> {
    scalar_names().take(9) + rest_names() + scalar_names().skip(9)
}

/// The name of scalar `i` of [`scalar_names`].
pub fn scalar_name(i: usize) -> (name: &'static str)
    requires
        i < 17,
    ensures
        name@ == scalar_names()[i as int],
{
    if i == 0 {
        "x"
    } else if i == 1 {
        "y"
    } else if i == 2 {
        "z"
    } else if i == 3 {
        "nx"
    } else if i == 4 {
        "ny"
    } else if i == 5 {
        "nz"
    } else if i == 6 {
        "f_dc_0"
    } else if i == 7 {
        "f_dc_1"
    } else if i == 8 {
        "f_dc_2"
    } else if i == 9 {
        "opacity"
    } else if i == 10 {
        "scale_0"
    } else if i == 11 {
        "scale_1"
    } else if i == 12 {
        "scale_2"
    } else if i == 13 {
        "rot_0"
    } else if i == 14 {
        "rot_1"
    } else if i == 15 {
        "rot_2"
    } else {
        "rot_3"
    }
}

/// The name of the higher-order coefficient `i`, as a string.
pub fn rest_name_text(i: usize) -> (name: String)
    ensures
        name@ == rest_name(i as nat),
{
    let mut name = String::from_str("f_rest_");
    crate::encoding::push_decimal(&mut name, i);
    name
}

/// The capability to decode one format: from what the format's reader is
/// given to what it yields, or the reason why it yields nothing.
pub trait Importer {
    type Source: ?Sized;

    type Decoded;

    fn import(source: &Self::Source) -> Result<Self::Decoded, ConversionError>;
}

/// The capability to encode one format: from what the format's writer is
/// given to the bytes of a file.
pub trait Exporter {
    type Source: ?Sized;

    fn export(source: &Self::Source) -> Result<Vec<u8>, ConversionError>;
}

} // verus!
