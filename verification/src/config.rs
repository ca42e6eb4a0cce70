//! Display profiles: named sets of screen geometries, used to recover an
//! image's dimensions from its decompressed byte count.
use vstd::prelude::*;

use vstd::string::StringExecFns;

use crate::ColorMode;
use crate::spec_mode_by_name;

verus! {

/// A screen geometry a profile offers, with an optional title.
pub struct Format {
    pub w: u32,
    pub h: u32,
    pub t: Option<String>,
}

/// Mathematical image of a `Format`.
pub ghost struct FormatView {
    pub w: u32,
    pub h: u32,
    pub t: Option<Seq<char>>,
}

impl View for Format {
    type V = FormatView;

    open spec fn view(&self) -> FormatView {
        FormatView {
            w: self.w,
            h: self.h,
            t: match self.t {
                Some(ref s) => Some(s@),
                None => None,
            },
        }
    }
}

/// A named display profile: a color model and the geometries it serves.
pub struct Profile {
    pub name: String,
    pub color_model: String,
    pub alias: Option<Vec<String>>,
    pub formats: Vec<Format>,
}

/// Mathematical image of a `Profile`.
pub ghost struct ProfileView {
    pub name: Seq<char>,
    pub color_model: Seq<char>,
    pub alias: Option<Seq<Seq<char>>>,
    pub formats: Seq<FormatView>,
}

impl View for Profile {
    type V = ProfileView;

    open spec fn view(&self) -> ProfileView {
        ProfileView {
            name: self.name@,
            color_model: self.color_model@,
            alias: match self.alias {
                Some(ref v) => Some(v.deep_view()),
                None => None,
            },
            formats: Seq::new(self.formats@.len(), |i: int| self.formats@[i]@),
        }
    }
}

/// The configuration file's content: a version tag and the profiles.
pub struct Config {
    pub version: String,
    pub profiles: Vec<Profile>,
}

/// Mathematical image of a `Config`.
pub ghost struct ConfigView {
    pub version: Seq<char>,
    pub profiles: Seq<ProfileView>,
}

impl View for Config {
    type V = ConfigView;

    open spec fn view(&self) -> ConfigView {
        ConfigView {
            version: self.version@,
            profiles: Seq::new(self.profiles@.len(), |i: int| self.profiles@[i]@),
        }
    }
}

/// A profile cannot resolve a geometry.
#[derive(Clone, Copy, Debug, PartialEq, Eq, Structural)]
pub enum ProfileError {
    /// The profile's color model names no supported mode.
    UnknownColorMode,
    /// No geometry of the profile matches the pixel count.
    NoMatchingFormat,
}

/// A geometry with width and height exchanged, its title wrapped to say
/// so.
pub open spec fn spec_flip(f: FormatView) -> FormatView {
    FormatView {
        w: f.h,
        h: f.w,
        t: match f.t {
            Some(s) => Some("flip("@ + s + ")"@),
            None => None,
        },
    }
}

/// The first geometry in the list whose pixel count is exactly `pixels`.
pub open spec fn spec_find_format(fs: Seq<FormatView>, pixels: int) -> Option<FormatView>
    decreases fs.len(),
{
    if fs.len() == 0 {
        None
    } else if (fs[0].w as int) * (fs[0].h as int) == pixels {
        Some(fs[0])
    } else {
        spec_find_format(fs.drop_first(), pixels)
    }
}

/// What resolving a byte count against a profile yields: the first
/// geometry whose pixel count matches `size` divided by the color model's
/// bytes per pixel, flipped on request.
pub open spec fn spec_guess_format(p: ProfileView, size: u32, flipped: bool) -> Result<
    FormatView,
    ProfileError,
> {
    match spec_mode_by_name(p.color_model) {
        None => Err(ProfileError::UnknownColorMode),
        Some(m) => {
            let pixels = size / m.spec_bytes_per_pixel();
            match spec_find_format(p.formats, pixels as int) {
                None => Err(ProfileError::NoMatchingFormat),
                Some(f) => Ok(
                    if flipped {
                        spec_flip(f)
                    } else {
                        f
                    },
                ),
            }
        },
    }
}

impl Format {
    /// This geometry with width and height exchanged.
    pub fn flip(&self) -> (r: Format)
        ensures
            r@ == spec_flip(self@),
    {
        let flipped_title = match &self.t {
            Some(s) => {
                let mut x = String::from_str("flip(");
                x.append(s.as_str());
                x.append(")");
                Some(x)
            },
            None => None,
        };
        Format { w: self.h, h: self.w, t: flipped_title }
    }

    /// A copy of this geometry.
    pub fn duplicate(&self) -> (r: Format)
        ensures
            r@ == self@,
    {
        Format {
            w: self.w,
            h: self.h,
            t: match &self.t {
                Some(s) => Some(s.clone()),
                None => None,
            },
        }
    }
}

impl Profile {
    /// This profile with its color model replaced.
    pub fn with_color_model(self, color_model: String) -> (r: Profile)
        ensures
            r@.name == self@.name,
            r@.color_model == color_model@,
            r@.alias == self@.alias,
            r@.formats == self@.formats,
    {
        Profile { name: self.name, color_model, alias: self.alias, formats: self.formats }
    }

    /// Resolves a decompressed byte count to one of this profile's
    /// geometries: the first whose pixel count matches, flipped on
    /// request; fails exactly when the color model is unknown or no
    /// geometry matches.
    pub fn guess_format(&self, size: u32, flip: bool) -> (r: Result<Format, ProfileError>)
        ensures
            r matches Ok(f) ==> spec_guess_format(self@, size, flip) == Ok::<
                FormatView,
                ProfileError,
            >(f@),
            r matches Err(e) ==> spec_guess_format(self@, size, flip) == Err::<
                FormatView,
                ProfileError,
            >(e),
    {
        let mode = match ColorMode::by_name(self.color_model.as_str()) {
            Ok(m) => m,
            Err(_) => { return Err(ProfileError::UnknownColorMode); },
        };
        let bpp = mode.bytes_per_pixel();
        let pixels = size / bpp;
        let ghost fs = self@.formats;
        let mut i: usize = 0;
        proof {
            assert(fs.skip(0) =~= fs);
        }
        while i < self.formats.len()
            invariant
                i <= self.formats@.len(),
                spec_mode_by_name(self@.color_model) == Some(mode),
                pixels == size / mode.spec_bytes_per_pixel(),
                fs == self@.formats,
                fs.len() == self.formats@.len(),
                forall|k: int| 0 <= k < fs.len() ==> fs[k] == self.formats@[k]@,
                spec_find_format(fs, pixels as int) == spec_find_format(
                    fs.skip(i as int),
                    pixels as int,
                ),
            decreases self.formats@.len() - i,
        {
            let f = &self.formats[i];
            proof {
                vstd::arithmetic::mul::lemma_mul_upper_bound(
                    f.w as int,
                    u32::MAX as int,
                    f.h as int,
                    u32::MAX as int,
                );
            }
            if (f.w as u64) * (f.h as u64) == pixels as u64 {
                proof {
                    assert(fs.skip(i as int)[0] == fs[i as int]);
                    assert(spec_find_format(fs.skip(i as int), pixels as int) == Some(
                        fs[i as int],
                    ));
                }
                let found = f.duplicate();
                if flip {
                    return Ok(found.flip());
                } else {
                    return Ok(found);
                }
            }
            proof {
                assert(fs.skip(i as int).drop_first() =~= fs.skip(i + 1));
            }
            i = i + 1;
        }
        proof {
            assert(fs.skip(self.formats@.len() as int) =~= Seq::<FormatView>::empty());
        }
        Err(ProfileError::NoMatchingFormat)
    }
}

} // verus!
