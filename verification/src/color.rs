//! Color value types and their wire codecs.
//!
//! A vector of colors travels as a flat whitespace-separated list of
//! decimal channel values, chunked by the color's arity: three for RGB
//! triples, four when a white or alpha channel is carried along. Decoding
//! a token count that does not match the arity is a [`FocusError::PartCountError`].

use vstd::prelude::*;

use crate::error::FocusError;
use crate::numeric::decode_wire_list;
use crate::numeric::WireNumber;
use crate::numeric::encode_list;
use crate::numeric::lemma_numeric_list_round_trip;
use crate::numeric::numerical_vec_to_string;
use crate::numeric::string_to_numerical_vec;

verus! {

/// An RGB color: three unsigned 8-bit channels.
#[derive(Debug, Copy, Clone, PartialEq, Eq, Structural)]
pub struct RGB {
    /// Red component of the color.
    pub r: u8,
    /// Green component of the color.
    pub g: u8,
    /// Blue component of the color.
    pub b: u8,
}

/// An RGBW color: an RGB triple plus a white channel.
#[derive(Debug, Copy, Clone, PartialEq, Eq, Structural)]
pub struct RGBW {
    /// Red component of the color.
    pub r: u8,
    /// Green component of the color.
    pub g: u8,
    /// Blue component of the color.
    pub b: u8,
    /// White component of the color.
    pub w: u8,
}

/// A plain color triple, the lightweight value used where no distinction
/// between RGB and RGBW hardware is needed.
#[derive(Debug, Copy, Clone, PartialEq, Eq, Structural)]
pub struct Color {
    pub r: u8,
    pub g: u8,
    pub b: u8,
}

/// A color with an alpha channel, carried on the wire like RGBW.
#[derive(Debug, Copy, Clone, PartialEq, Eq, Structural)]
pub struct RGBA {
    pub r: u8,
    pub g: u8,
    pub b: u8,
    pub a: u8,
}

/// The flat channel list of an RGB vector.
pub open spec fn flat_rgb(v: Seq<RGB>) -> Seq<nat> {
    Seq::new(
        3 * v.len(),
        |k: int|
            if k % 3 == 0 {
                v[k / 3].r as nat
            } else if k % 3 == 1 {
                v[k / 3].g as nat
            } else {
                v[k / 3].b as nat
            },
    )
}

/// The RGB vector a flat channel list denotes.
pub open spec fn group_rgb(vals: Seq<nat>) -> Seq<RGB> {
    Seq::new(
        vals.len() / 3,
        |i: int|
            RGB { r: vals[3 * i] as u8, g: vals[3 * i + 1] as u8, b: vals[3 * i + 2] as u8 },
    )
}

/// The flat channel list of an RGBW vector.
pub open spec fn flat_rgbw(v: Seq<RGBW>) -> Seq<nat> {
    Seq::new(
        4 * v.len(),
        |k: int|
            if k % 4 == 0 {
                v[k / 4].r as nat
            } else if k % 4 == 1 {
                v[k / 4].g as nat
            } else if k % 4 == 2 {
                v[k / 4].b as nat
            } else {
                v[k / 4].w as nat
            },
    )
}

/// The RGBW vector a flat channel list denotes.
pub open spec fn group_rgbw(vals: Seq<nat>) -> Seq<RGBW> {
    Seq::new(
        vals.len() / 4,
        |i: int|
            RGBW {
                r: vals[4 * i] as u8,
                g: vals[4 * i + 1] as u8,
                b: vals[4 * i + 2] as u8,
                w: vals[4 * i + 3] as u8,
            },
    )
}

/// The flat channel list of a color-triple vector.
pub open spec fn flat_color(v: Seq<Color>) -> Seq<nat> {
    Seq::new(
        3 * v.len(),
        |k: int|
            if k % 3 == 0 {
                v[k / 3].r as nat
            } else if k % 3 == 1 {
                v[k / 3].g as nat
            } else {
                v[k / 3].b as nat
            },
    )
}

/// The color-triple vector a flat channel list denotes.
pub open spec fn group_color(vals: Seq<nat>) -> Seq<Color> {
    Seq::new(
        vals.len() / 3,
        |i: int|
            Color { r: vals[3 * i] as u8, g: vals[3 * i + 1] as u8, b: vals[3 * i + 2] as u8 },
    )
}

/// The flat channel list of an RGBA vector.
pub open spec fn flat_rgba(v: Seq<RGBA>) -> Seq<nat> {
    Seq::new(
        4 * v.len(),
        |k: int|
            if k % 4 == 0 {
                v[k / 4].r as nat
            } else if k % 4 == 1 {
                v[k / 4].g as nat
            } else if k % 4 == 2 {
                v[k / 4].b as nat
            } else {
                v[k / 4].a as nat
            },
    )
}

/// The RGBA vector a flat channel list denotes.
pub open spec fn group_rgba(vals: Seq<nat>) -> Seq<RGBA> {
    Seq::new(
        vals.len() / 4,
        |i: int|
            RGBA {
                r: vals[4 * i] as u8,
                g: vals[4 * i + 1] as u8,
                b: vals[4 * i + 2] as u8,
                a: vals[4 * i + 3] as u8,
            },
    )
}

/// Decodes a flat whitespace-separated channel list into RGB triples.
pub fn string_to_rgb_vec(input: &str) -> (r: Result<Vec<RGB>, FocusError>)
    ensures
        match decode_wire_list::<u8>(input@) {
            Some(vals) => if vals.len() % 3 == 0 {
                r matches Ok(v) && v@ == group_rgb(vals)
            } else {
                r matches Err(e) && e == (FocusError::PartCountError { expected: 3u8 })
            },
            None => r matches Err(e) && (e matches FocusError::ParseNumericalVecError {
                string,
            } && string@ == input@),
        },
{
    let nums = match string_to_numerical_vec::<u8>(input) {
        Ok(nums) => nums,
        Err(e) => {
            return Err(e);
        },
    };
    let ghost vals = decode_wire_list::<u8>(input@).unwrap();
    if nums.len() % 3 != 0 {
        return Err(FocusError::PartCountError { expected: 3 });
    }
    let mut out: Vec<RGB> = Vec::new();
    let mut i: usize = 0;
    let mut j: usize = 0;
    while j < nums.len()
        invariant
            nums@.map_values(|x: u8| x.as_natural()) == vals,
            vals.len() % 3 == 0,
            j == 3 * i,
            j <= nums@.len(),
            out@.len() == i,
            forall|q: int| 0 <= q < i ==> out@[q] == group_rgb(vals)[q],
        decreases nums@.len() - j,
    {
        let c = RGB { r: nums[j], g: nums[j + 1], b: nums[j + 2] };
        out.push(c);
        proof {
            assert(vals[j as int] == nums@[j as int] as nat);
            assert(vals[j + 1] == nums@[j + 1] as nat);
            assert(vals[j + 2] == nums@[j + 2] as nat);
            assert(group_rgb(vals)[i as int] == c);
        }
        i = i + 1;
        j = j + 3;
    }
    proof {
        assert(out@ =~= group_rgb(vals));
    }
    Ok(out)
}

/// Encodes RGB triples as a flat whitespace-separated channel list.
pub fn rgb_vec_to_string(data: &Vec<RGB>) -> (r: String)
    ensures
        r@ == encode_list(flat_rgb(data@)),
{
    let mut flat: Vec<u8> = Vec::new();
    let mut i: usize = 0;
    while i < data.len()
        invariant
            i <= data@.len(),
            flat@.len() == 3 * i,
            flat@.map_values(|x: u8| x.as_natural()) == flat_rgb(data@).take(3 * i),
        decreases data@.len() - i,
    {
        flat.push(data[i].r);
        flat.push(data[i].g);
        flat.push(data[i].b);
        proof {
            assert(flat@.map_values(|x: u8| x.as_natural()) =~= flat_rgb(data@).take(
                3 * (i + 1),
            ));
        }
        i = i + 1;
    }
    proof {
        assert(flat_rgb(data@).take(3 * data@.len() as int) =~= flat_rgb(data@));
    }
    numerical_vec_to_string::<u8>(&flat)
}

/// Decodes a flat whitespace-separated channel list into RGBW values.
pub fn string_to_rgbw_vec(input: &str) -> (r: Result<Vec<RGBW>, FocusError>)
    ensures
        match decode_wire_list::<u8>(input@) {
            Some(vals) => if vals.len() % 4 == 0 {
                r matches Ok(v) && v@ == group_rgbw(vals)
            } else {
                r matches Err(e) && e == (FocusError::PartCountError { expected: 4u8 })
            },
            None => r matches Err(e) && (e matches FocusError::ParseNumericalVecError {
                string,
            } && string@ == input@),
        },
{
    let nums = match string_to_numerical_vec::<u8>(input) {
        Ok(nums) => nums,
        Err(e) => {
            return Err(e);
        },
    };
    let ghost vals = decode_wire_list::<u8>(input@).unwrap();
    if nums.len() % 4 != 0 {
        return Err(FocusError::PartCountError { expected: 4 });
    }
    let mut out: Vec<RGBW> = Vec::new();
    let mut i: usize = 0;
    let mut j: usize = 0;
    while j < nums.len()
        invariant
            nums@.map_values(|x: u8| x.as_natural()) == vals,
            vals.len() % 4 == 0,
            j == 4 * i,
            j <= nums@.len(),
            out@.len() == i,
            forall|q: int| 0 <= q < i ==> out@[q] == group_rgbw(vals)[q],
        decreases nums@.len() - j,
    {
        let c = RGBW { r: nums[j], g: nums[j + 1], b: nums[j + 2], w: nums[j + 3] };
        out.push(c);
        proof {
            assert(vals[j as int] == nums@[j as int] as nat);
            assert(vals[j + 1] == nums@[j + 1] as nat);
            assert(vals[j + 2] == nums@[j + 2] as nat);
            assert(vals[j + 3] == nums@[j + 3] as nat);
            assert(group_rgbw(vals)[i as int] == c);
        }
        i = i + 1;
        j = j + 4;
    }
    proof {
        assert(out@ =~= group_rgbw(vals));
    }
    Ok(out)
}

/// Encodes RGBW values as a flat whitespace-separated channel list.
pub fn rgbw_vec_to_string(data: &Vec<RGBW>) -> (r: String)
    ensures
        r@ == encode_list(flat_rgbw(data@)),
{
    let mut flat: Vec<u8> = Vec::new();
    let mut i: usize = 0;
    while i < data.len()
        invariant
            i <= data@.len(),
            flat@.len() == 4 * i,
            flat@.map_values(|x: u8| x.as_natural()) == flat_rgbw(data@).take(4 * i),
        decreases data@.len() - i,
    {
        flat.push(data[i].r);
        flat.push(data[i].g);
        flat.push(data[i].b);
        flat.push(data[i].w);
        proof {
            assert(flat@.map_values(|x: u8| x.as_natural()) =~= flat_rgbw(data@).take(
                4 * (i + 1),
            ));
        }
        i = i + 1;
    }
    proof {
        assert(flat_rgbw(data@).take(4 * data@.len() as int) =~= flat_rgbw(data@));
    }
    numerical_vec_to_string::<u8>(&flat)
}

/// Decodes a flat whitespace-separated channel list into color triples.
pub fn string_to_color_vec(input: &str) -> (r: Result<Vec<Color>, FocusError>)
    ensures
        match decode_wire_list::<u8>(input@) {
            Some(vals) => if vals.len() % 3 == 0 {
                r matches Ok(v) && v@ == group_color(vals)
            } else {
                r matches Err(e) && e == (FocusError::PartCountError { expected: 3u8 })
            },
            None => r matches Err(e) && (e matches FocusError::ParseNumericalVecError {
                string,
            } && string@ == input@),
        },
{
    let nums = match string_to_numerical_vec::<u8>(input) {
        Ok(nums) => nums,
        Err(e) => {
            return Err(e);
        },
    };
    let ghost vals = decode_wire_list::<u8>(input@).unwrap();
    if nums.len() % 3 != 0 {
        return Err(FocusError::PartCountError { expected: 3 });
    }
    let mut out: Vec<Color> = Vec::new();
    let mut i: usize = 0;
    let mut j: usize = 0;
    while j < nums.len()
        invariant
            nums@.map_values(|x: u8| x.as_natural()) == vals,
            vals.len() % 3 == 0,
            j == 3 * i,
            j <= nums@.len(),
            out@.len() == i,
            forall|q: int| 0 <= q < i ==> out@[q] == group_color(vals)[q],
        decreases nums@.len() - j,
    {
        let c = Color { r: nums[j], g: nums[j + 1], b: nums[j + 2] };
        out.push(c);
        proof {
            assert(vals[j as int] == nums@[j as int] as nat);
            assert(vals[j + 1] == nums@[j + 1] as nat);
            assert(vals[j + 2] == nums@[j + 2] as nat);
            assert(group_color(vals)[i as int] == c);
        }
        i = i + 1;
        j = j + 3;
    }
    proof {
        assert(out@ =~= group_color(vals));
    }
    Ok(out)
}

/// Encodes color triples as a flat whitespace-separated channel list.
pub fn color_vec_to_string(data: &Vec<Color>) -> (r: String)
    ensures
        r@ == encode_list(flat_color(data@)),
{
    let mut flat: Vec<u8> = Vec::new();
    let mut i: usize = 0;
    while i < data.len()
        invariant
            i <= data@.len(),
            flat@.len() == 3 * i,
            flat@.map_values(|x: u8| x.as_natural()) == flat_color(data@).take(3 * i),
        decreases data@.len() - i,
    {
        flat.push(data[i].r);
        flat.push(data[i].g);
        flat.push(data[i].b);
        proof {
            assert(flat@.map_values(|x: u8| x.as_natural()) =~= flat_color(data@).take(
                3 * (i + 1),
            ));
        }
        i = i + 1;
    }
    proof {
        assert(flat_color(data@).take(3 * data@.len() as int) =~= flat_color(data@));
    }
    numerical_vec_to_string::<u8>(&flat)
}

/// Decodes a flat whitespace-separated channel list into RGBA values.
pub fn string_to_rgba_vec(input: &str) -> (r: Result<Vec<RGBA>, FocusError>)
    ensures
        match decode_wire_list::<u8>(input@) {
            Some(vals) => if vals.len() % 4 == 0 {
                r matches Ok(v) && v@ == group_rgba(vals)
            } else {
                r matches Err(e) && e == (FocusError::PartCountError { expected: 4u8 })
            },
            None => r matches Err(e) && (e matches FocusError::ParseNumericalVecError {
                string,
            } && string@ == input@),
        },
{
    let nums = match string_to_numerical_vec::<u8>(input) {
        Ok(nums) => nums,
        Err(e) => {
            return Err(e);
        },
    };
    let ghost vals = decode_wire_list::<u8>(input@).unwrap();
    if nums.len() % 4 != 0 {
        return Err(FocusError::PartCountError { expected: 4 });
    }
    let mut out: Vec<RGBA> = Vec::new();
    let mut i: usize = 0;
    let mut j: usize = 0;
    while j < nums.len()
        invariant
            nums@.map_values(|x: u8| x.as_natural()) == vals,
            vals.len() % 4 == 0,
            j == 4 * i,
            j <= nums@.len(),
            out@.len() == i,
            forall|q: int| 0 <= q < i ==> out@[q] == group_rgba(vals)[q],
        decreases nums@.len() - j,
    {
        let c = RGBA { r: nums[j], g: nums[j + 1], b: nums[j + 2], a: nums[j + 3] };
        out.push(c);
        proof {
            assert(vals[j as int] == nums@[j as int] as nat);
            assert(vals[j + 1] == nums@[j + 1] as nat);
            assert(vals[j + 2] == nums@[j + 2] as nat);
            assert(vals[j + 3] == nums@[j + 3] as nat);
            assert(group_rgba(vals)[i as int] == c);
        }
        i = i + 1;
        j = j + 4;
    }
    proof {
        assert(out@ =~= group_rgba(vals));
    }
    Ok(out)
}

/// Encodes RGBA values as a flat whitespace-separated channel list.
pub fn rgba_vec_to_string(data: &Vec<RGBA>) -> (r: String)
    ensures
        r@ == encode_list(flat_rgba(data@)),
{
    let mut flat: Vec<u8> = Vec::new();
    let mut i: usize = 0;
    while i < data.len()
        invariant
            i <= data@.len(),
            flat@.len() == 4 * i,
            flat@.map_values(|x: u8| x.as_natural()) == flat_rgba(data@).take(4 * i),
        decreases data@.len() - i,
    {
        flat.push(data[i].r);
        flat.push(data[i].g);
        flat.push(data[i].b);
        flat.push(data[i].a);
        proof {
            assert(flat@.map_values(|x: u8| x.as_natural()) =~= flat_rgba(data@).take(
                4 * (i + 1),
            ));
        }
        i = i + 1;
    }
    proof {
        assert(flat_rgba(data@).take(4 * data@.len() as int) =~= flat_rgba(data@));
    }
    numerical_vec_to_string::<u8>(&flat)
}

/// The round trip of the RGB vector codec: the flat channel list of any
/// RGB vector decodes without loss, its length is divisible by three, and
/// regrouping it restores the vector.
pub proof fn lemma_rgb_vec_round_trip(data: Seq<RGB>)
    ensures
        decode_wire_list::<u8>(encode_list(flat_rgb(data))) == Some(flat_rgb(data)),
        flat_rgb(data).len() % 3 == 0,
        group_rgb(flat_rgb(data)) == data,
{
    let flat = flat_rgb(data);
    lemma_numeric_list_round_trip(flat);
    assert(forall|k: int| 0 <= k < flat.len() ==> #[trigger] flat[k] <= u8::max_natural());
    assert(group_rgb(flat) =~= data) by {
        assert(flat.len() == 3 * data.len());
        assert forall|i: int| 0 <= i < data.len() implies group_rgb(flat)[i] == data[i] by {
            lemma_triple_index(data.len() as int, i);
            assert(flat[3 * i] == data[i].r as nat);
            assert(flat[3 * i + 1] == data[i].g as nat);
            assert(flat[3 * i + 2] == data[i].b as nat);
        }
    }
}

/// The round trip of the RGBW vector codec, with arity four.
pub proof fn lemma_rgbw_vec_round_trip(data: Seq<RGBW>)
    ensures
        decode_wire_list::<u8>(encode_list(flat_rgbw(data))) == Some(flat_rgbw(data)),
        flat_rgbw(data).len() % 4 == 0,
        group_rgbw(flat_rgbw(data)) == data,
{
    let flat = flat_rgbw(data);
    lemma_numeric_list_round_trip(flat);
    assert(forall|k: int| 0 <= k < flat.len() ==> #[trigger] flat[k] <= u8::max_natural());
    assert(group_rgbw(flat) =~= data) by {
        assert(flat.len() == 4 * data.len());
        assert forall|i: int| 0 <= i < data.len() implies group_rgbw(flat)[i] == data[i] by {
            lemma_quad_index(data.len() as int, i);
            assert(flat[4 * i] == data[i].r as nat);
            assert(flat[4 * i + 1] == data[i].g as nat);
            assert(flat[4 * i + 2] == data[i].b as nat);
            assert(flat[4 * i + 3] == data[i].w as nat);
        }
    }
}

proof fn lemma_triple_index(n: int, i: int)
    requires
        0 <= i < n,
    ensures
        (3 * n) % 3 == 0,
        (3 * n) / 3 == n,
        (3 * i) % 3 == 0 && (3 * i) / 3 == i,
        (3 * i + 1) % 3 == 1 && (3 * i + 1) / 3 == i,
        (3 * i + 2) % 3 == 2 && (3 * i + 2) / 3 == i,
{
    assert((3 * n) % 3 == 0 && (3 * n) / 3 == n) by (nonlinear_arith);
    assert((3 * i) % 3 == 0 && (3 * i) / 3 == i) by (nonlinear_arith)
        requires
            i >= 0,
    ;
    assert((3 * i + 1) % 3 == 1 && (3 * i + 1) / 3 == i) by (nonlinear_arith)
        requires
            i >= 0,
    ;
    assert((3 * i + 2) % 3 == 2 && (3 * i + 2) / 3 == i) by (nonlinear_arith)
        requires
            i >= 0,
    ;
}

proof fn lemma_quad_index(n: int, i: int)
    requires
        0 <= i < n,
    ensures
        (4 * n) % 4 == 0,
        (4 * n) / 4 == n,
        (4 * i) % 4 == 0 && (4 * i) / 4 == i,
        (4 * i + 1) % 4 == 1 && (4 * i + 1) / 4 == i,
        (4 * i + 2) % 4 == 2 && (4 * i + 2) / 4 == i,
        (4 * i + 3) % 4 == 3 && (4 * i + 3) / 4 == i,
{
    assert((4 * n) % 4 == 0 && (4 * n) / 4 == n) by (nonlinear_arith);
    assert((4 * i) % 4 == 0 && (4 * i) / 4 == i) by (nonlinear_arith)
        requires
            i >= 0,
    ;
    assert((4 * i + 1) % 4 == 1 && (4 * i + 1) / 4 == i) by (nonlinear_arith)
        requires
            i >= 0,
    ;
    assert((4 * i + 2) % 4 == 2 && (4 * i + 2) / 4 == i) by (nonlinear_arith)
        requires
            i >= 0,
    ;
    assert((4 * i + 3) % 4 == 3 && (4 * i + 3) / 4 == i) by (nonlinear_arith)
        requires
            i >= 0,
    ;
}

} // verus!
