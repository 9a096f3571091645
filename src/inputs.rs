//! The run's settings, checked and turned into what the renderer consumes.
use vstd::prelude::*;

verus! {

/// How streamlines are colored.
#[derive(Clone, Copy, Debug, PartialEq, Eq, Structural)]
pub enum ColoringInput {
    Local,
    Endpoint,
    Uniform,
}

/// The coloring policy of the streamline geometry: by the direction of
/// each segment, by the direction from a streamline's first point to its
/// last, or one RGB color (0 to 255 per channel) for all.
#[derive(Clone, Copy, Debug, PartialEq, Eq, Structural)]
pub enum Coloring {
    Local,
    Endpoint,
    Uniform(u32, u32, u32),
}

/// The settings of a run, as given on the command line.
pub struct Args {
    /// Volume file to slice.
    pub input_image: String,
    /// Whether the background is white rather than black.
    pub white: bool,
    /// Streamline file drawn over each slice, if any.
    pub fibers: Option<String>,
    /// How many streamlines are batched per buffer.
    pub batch_size: usize,
    /// Coloring mode of the streamlines.
    pub coloring: ColoringInput,
    /// RGB color of the uniform coloring mode.
    pub rgb: Vec<u32>,
    /// Folder that receives the images.
    pub output: String,
    /// Width and height of the images.
    pub output_size: Vec<u32>,
    /// Views from which slices are taken.
    pub views: Vec<crate::view::View>,
}

/// Why the settings of a run cannot be used.
#[derive(Clone, Copy, Debug, PartialEq, Eq, Structural)]
pub enum ConfigError {
    /// The uniform coloring mode needs exactly three RGB values.
    MissingRgb,
    /// The output size must be a width and a height.
    BadOutputSize,
    /// The volume header's dimensions cannot be read.
    InconsistentDims,
    /// The volume is not three-dimensional.
    NotThreeDimensional,
}

/// What the renderer is built from.
#[derive(Clone, Copy, Debug)]
pub struct ContextInputs {
    pub size_3d: [u32; 3],
    pub dst_img_size: [u32; 2],
    pub streamline_batch_size: usize,
    pub white_mode: bool,
    pub coloring: Coloring,
}

/// A NIfTI header's raw `dim` field is consistent: it declares one to
/// seven dimensions and none of them is zero.
pub open spec fn dims_valid(raw: Seq<u16>) -> bool {
    1 <= raw[0] <= 7 && forall|i: int| 1 <= i <= raw[0] ==> #[trigger] raw[i] > 0
}

/// The three dimensions that a valid `dim` field of rank three declares.
pub open spec fn dims_of(raw: Seq<u16>) -> [u32; 3] {
    [raw[1] as u32, raw[2] as u32, raw[3] as u32]
}

/// The coloring policy that `input` names, with its color where it needs one.
pub fn coloring_of(input: ColoringInput, rgb: &Vec<u32>) -> (r: Result<Coloring, ConfigError>)
    ensures
        r == match input {
            ColoringInput::Local => Ok(Coloring::Local),
            ColoringInput::Endpoint => Ok(Coloring::Endpoint),
            ColoringInput::Uniform => if rgb@.len() == 3 {
                Ok(Coloring::Uniform(rgb@[0], rgb@[1], rgb@[2]))
            } else {
                Err(ConfigError::MissingRgb)
            },
        },
{
    match input {
        ColoringInput::Local => Ok(Coloring::Local),
        ColoringInput::Endpoint => Ok(Coloring::Endpoint),
        ColoringInput::Uniform => if rgb.len() == 3 {
            Ok(Coloring::Uniform(rgb[0], rgb[1], rgb[2]))
        } else {
            Err(ConfigError::MissingRgb)
        },
    }
}

/// The size of a volume with dimensions `dims`, which must be three.
pub fn dims_3d(dims: &Vec<u16>) -> (r: Result<[u32; 3], ConfigError>)
    ensures
        r is Err <==> dims@.len() != 3,
        r is Err ==> r == Err::<[u32; 3], ConfigError>(ConfigError::NotThreeDimensional),
        r matches Ok(d) ==> d@ == seq![dims@[0] as u32, dims@[1] as u32, dims@[2] as u32],
{
    if dims.len() != 3 {
        return Err(ConfigError::NotThreeDimensional);
    }
    let d = [dims[0] as u32, dims[1] as u32, dims[2] as u32];
    assert(d@ =~= seq![dims@[0] as u32, dims@[1] as u32, dims@[2] as u32]);
    Ok(d)
}

/// The size of the volume whose NIfTI header has the raw `dim` field `raw`.
pub fn get_dim(raw: &[u16; 8]) -> (r: Result<[u32; 3], ConfigError>)
    ensures
        !dims_valid(raw@) ==> r == Err::<[u32; 3], ConfigError>(ConfigError::InconsistentDims),
        dims_valid(raw@) && raw@[0] != 3 ==> r == Err::<[u32; 3], ConfigError>(ConfigError::NotThreeDimensional),
        dims_valid(raw@) && raw@[0] == 3 ==> (r matches Ok(d) && d@ == seq![raw@[1] as u32, raw@[2] as u32, raw@[3] as u32]),
{
    let ndim = raw[0];
    if ndim == 0 || ndim > 7 {
        return Err(ConfigError::InconsistentDims);
    }
    let mut i: usize = 1;
    while i <= ndim as usize
        invariant
            raw@.len() == 8,
            ndim == raw@[0],
            1 <= ndim <= 7,
            1 <= i <= ndim + 1,
            forall|k: int| 1 <= k < i ==> #[trigger] raw@[k] > 0,
        decreases ndim + 1 - i,
    {
        if raw[i] == 0 {
            return Err(ConfigError::InconsistentDims);
        }
        i += 1;
    }
    if ndim != 3 {
        return Err(ConfigError::NotThreeDimensional);
    }
    let d = [raw[1] as u32, raw[2] as u32, raw[3] as u32];
    assert(d@ =~= seq![raw@[1] as u32, raw@[2] as u32, raw@[3] as u32]);
    Ok(d)
}

/// The renderer's inputs, from the settings and a volume of dimensions
/// `dims`.
pub open spec fn inputs_of(args: &Args, size_3d: [u32; 3]) -> Result<ContextInputs, ConfigError> {
    match coloring_of_spec(args.coloring, args.rgb@) {
        Err(e) => Err(e),
        Ok(coloring) => if args.output_size@.len() != 2 {
            Err(ConfigError::BadOutputSize)
        } else {
            Ok(ContextInputs {
                size_3d,
                dst_img_size: [args.output_size@[0], args.output_size@[1]],
                streamline_batch_size: args.batch_size,
                white_mode: args.white,
                coloring,
            })
        },
    }
}

/// The coloring policy that `input` names, with its color where it needs one.
pub open spec fn coloring_of_spec(input: ColoringInput, rgb: Seq<u32>) -> Result<Coloring, ConfigError> {
    match input {
        ColoringInput::Local => Ok(Coloring::Local),
        ColoringInput::Endpoint => Ok(Coloring::Endpoint),
        ColoringInput::Uniform => if rgb.len() == 3 {
            Ok(Coloring::Uniform(rgb[0], rgb[1], rgb[2]))
        } else {
            Err(ConfigError::MissingRgb)
        },
    }
}

impl ContextInputs {
    /// The renderer's inputs for a volume of size `size_3d`.
    pub fn from_size(args: &Args, size_3d: [u32; 3]) -> (r: Result<ContextInputs, ConfigError>)
        ensures
            r == inputs_of(args, size_3d),
    {
        let coloring = match coloring_of(args.coloring, &args.rgb) {
            Ok(c) => c,
            Err(e) => return Err(e),
        };
        if args.output_size.len() != 2 {
            return Err(ConfigError::BadOutputSize);
        }
        Ok(ContextInputs {
            size_3d,
            dst_img_size: [args.output_size[0], args.output_size[1]],
            streamline_batch_size: args.batch_size,
            white_mode: args.white,
            coloring,
        })
    }

    /// The renderer's inputs for the volume whose NIfTI header has the raw
    /// `dim` field `raw`.
    pub fn new(args: &Args, raw: &[u16; 8]) -> (r: Result<ContextInputs, ConfigError>)
        ensures
            !dims_valid(raw@) ==> r == Err::<ContextInputs, ConfigError>(ConfigError::InconsistentDims),
            dims_valid(raw@) && raw@[0] != 3 ==> r == Err::<ContextInputs, ConfigError>(ConfigError::NotThreeDimensional),
            dims_valid(raw@) && raw@[0] == 3 ==> r == inputs_of(args, dims_of(raw@)),
    {
        let size_3d = match get_dim(raw) {
            Ok(d) => d,
            Err(e) => return Err(e),
        };
        proof {
            assert(size_3d@ =~= dims_of(raw@)@);
            assert(size_3d =~= dims_of(raw@));
        }
        ContextInputs::from_size(args, size_3d)
    }
}

} // verus!
