//! Codec for MTK "logo" firmware containers: a fixed 512-byte header, an
//! offset table, and a list of independently compressed pixel blobs, together
//! with conversions between device pixel encodings and a canonical RGBA
//! representation.
use vstd::prelude::*;

use vstd::string::StrSliceExecFns;
use vstd::string::StringExecFns;

pub mod byteio;
pub mod config;
pub mod errors;
pub mod header;
pub mod image;
pub mod logo;
pub mod text;
pub mod z_lib_flate2;
pub mod z_lib_libflate;

pub use header::{MtkHeader, MtkType};
pub use logo::{LogoImage, LogoTable};

use errors::{NamingError, PixelError};

verus! {

/// Byte order of a multi-byte pixel word as the device stores it.
#[derive(Debug, Clone, Copy, PartialEq, Eq, Structural)]
pub enum Endian {
    Little,
    Big,
}

/// The supported device pixel encodings: channel order, bit depth and byte
/// order.
#[derive(Debug, Clone, Copy, PartialEq, Eq, Structural)]
pub enum ColorMode {
    Rgba(Endian),
    Bgra(Endian),
    Rgb565(Endian),
}

impl ColorMode {
    /// Bytes needed to store one pixel in this encoding.
    pub open spec fn spec_bytes_per_pixel(self) -> u32 {
        match self {
            ColorMode::Rgba(_) => 4,
            ColorMode::Bgra(_) => 4,
            ColorMode::Rgb565(_) => 2,
        }
    }

    /// How many bytes are required to encode a single pixel?
    pub fn bytes_per_pixel(&self) -> (r: u32)
        ensures
            r == self.spec_bytes_per_pixel(),
    {
        match self {
            ColorMode::Rgba(_) => 4,
            ColorMode::Bgra(_) => 4,
            ColorMode::Rgb565(_) => 2,
        }
    }

    /// The supported color modes, in their canonical order.
    pub open spec fn spec_all_modes() -> Seq<ColorMode> {
        seq![
            ColorMode::Rgba(Endian::Big),
            ColorMode::Rgba(Endian::Little),
            ColorMode::Bgra(Endian::Big),
            ColorMode::Bgra(Endian::Little),
            ColorMode::Rgb565(Endian::Big),
            ColorMode::Rgb565(Endian::Little),
        ]
    }

    /// Lists all managed color modes.
    pub fn enumerate() -> (r: Vec<ColorMode>)
        ensures
            r@ == ColorMode::spec_all_modes(),
    {
        let mut v: Vec<ColorMode> = Vec::new();
        v.push(ColorMode::Rgba(Endian::Big));
        v.push(ColorMode::Rgba(Endian::Little));
        v.push(ColorMode::Bgra(Endian::Big));
        v.push(ColorMode::Bgra(Endian::Little));
        v.push(ColorMode::Rgb565(Endian::Big));
        v.push(ColorMode::Rgb565(Endian::Little));
        assert(v@ =~= ColorMode::spec_all_modes());
        v
    }
}

/// Compares two byte slices for equality.
pub fn same_bytes(a: &[u8], b: &[u8]) -> (r: bool)
    ensures
        r == (a@ == b@),
{
    if a.len() != b.len() {
        return false;
    }
    let mut i: usize = 0;
    while i < a.len()
        invariant
            i <= a@.len(),
            a@.len() == b@.len(),
            forall|j: int| 0 <= j < i ==> a@[j] == b@[j],
        decreases a@.len() - i,
    {
        if a[i] != b[i] {
            return false;
        }
        i = i + 1;
    }
    assert(a@ =~= b@);
    true
}

/// The canonical lowercase name token of a color mode, used both for
/// display and for file-name round-tripping.
pub open spec fn spec_mode_name(m: ColorMode) -> Seq<char> {
    match m {
        ColorMode::Rgba(Endian::Big) => "rgbabe"@,
        ColorMode::Rgba(Endian::Little) => "rgbale"@,
        ColorMode::Bgra(Endian::Big) => "bgrabe"@,
        ColorMode::Bgra(Endian::Little) => "bgrale"@,
        ColorMode::Rgb565(Endian::Big) => "rgb565be"@,
        ColorMode::Rgb565(Endian::Little) => "rgb565le"@,
    }
}

/// The color mode a name token denotes, if any.
pub open spec fn spec_mode_by_name(s: Seq<char>) -> Option<ColorMode> {
    if s == spec_mode_name(ColorMode::Rgba(Endian::Big)) {
        Some(ColorMode::Rgba(Endian::Big))
    } else if s == spec_mode_name(ColorMode::Rgba(Endian::Little)) {
        Some(ColorMode::Rgba(Endian::Little))
    } else if s == spec_mode_name(ColorMode::Bgra(Endian::Big)) {
        Some(ColorMode::Bgra(Endian::Big))
    } else if s == spec_mode_name(ColorMode::Bgra(Endian::Little)) {
        Some(ColorMode::Bgra(Endian::Little))
    } else if s == spec_mode_name(ColorMode::Rgb565(Endian::Big)) {
        Some(ColorMode::Rgb565(Endian::Big))
    } else if s == spec_mode_name(ColorMode::Rgb565(Endian::Little)) {
        Some(ColorMode::Rgb565(Endian::Little))
    } else {
        None
    }
}

impl ColorMode {
    /// This mode's canonical name token.
    pub fn name(&self) -> (r: String)
        ensures
            r@ == spec_mode_name(*self),
    {
        match self {
            ColorMode::Rgba(Endian::Big) => String::from_str("rgbabe"),
            ColorMode::Rgba(Endian::Little) => String::from_str("rgbale"),
            ColorMode::Bgra(Endian::Big) => String::from_str("bgrabe"),
            ColorMode::Bgra(Endian::Little) => String::from_str("bgrale"),
            ColorMode::Rgb565(Endian::Big) => String::from_str("rgb565be"),
            ColorMode::Rgb565(Endian::Little) => String::from_str("rgb565le"),
        }
    }

    /// Looks a color mode up by its name token; fails exactly when the
    /// token names none.
    pub fn by_name(name: &str) -> (r: Result<ColorMode, PixelError>)
        ensures
            r matches Ok(m) ==> spec_mode_by_name(name@) == Some(m),
            r is Err ==> spec_mode_by_name(name@) is None && r == Err::<ColorMode, PixelError>(
                PixelError::UnknownColorMode,
            ),
    {
        if text::str_eq(name, "rgbabe") {
            Ok(ColorMode::Rgba(Endian::Big))
        } else if text::str_eq(name, "rgbale") {
            Ok(ColorMode::Rgba(Endian::Little))
        } else if text::str_eq(name, "bgrabe") {
            Ok(ColorMode::Bgra(Endian::Big))
        } else if text::str_eq(name, "bgrale") {
            Ok(ColorMode::Bgra(Endian::Little))
        } else if text::str_eq(name, "rgb565be") {
            Ok(ColorMode::Rgb565(Endian::Big))
        } else if text::str_eq(name, "rgb565le") {
            Ok(ColorMode::Rgb565(Endian::Little))
        } else {
            Err(PixelError::UnknownColorMode)
        }
    }
}

/// The six mode names are pairwise distinct, so each name denotes exactly
/// the mode it was taken from.
pub proof fn lemma_mode_name_round_trip(m: ColorMode)
    ensures
        spec_mode_by_name(spec_mode_name(m)) == Some(m),
{
    reveal_strlit("rgbabe");
    reveal_strlit("rgbale");
    reveal_strlit("bgrabe");
    reveal_strlit("bgrale");
    reveal_strlit("rgb565be");
    reveal_strlit("rgb565le");
    match m {
        ColorMode::Rgba(Endian::Big) => {
        },
        ColorMode::Rgba(Endian::Little) => {
            assert("rgbale"@[4] != "rgbabe"@[4]);
        },
        ColorMode::Bgra(Endian::Big) => {
            assert("bgrabe"@[0] != "rgbabe"@[0]);
            assert("bgrabe"@[0] != "rgbale"@[0]);
        },
        ColorMode::Bgra(Endian::Little) => {
            assert("bgrale"@[0] != "rgbabe"@[0]);
            assert("bgrale"@[0] != "rgbale"@[0]);
            assert("bgrale"@[4] != "bgrabe"@[4]);
        },
        ColorMode::Rgb565(Endian::Big) => {
            assert("rgb565be"@.len() != "rgbabe"@.len());
            assert("rgb565be"@.len() != "rgbale"@.len());
            assert("rgb565be"@.len() != "bgrabe"@.len());
            assert("rgb565be"@.len() != "bgrale"@.len());
        },
        ColorMode::Rgb565(Endian::Little) => {
            assert("rgb565le"@.len() != "rgbabe"@.len());
            assert("rgb565le"@.len() != "rgbale"@.len());
            assert("rgb565le"@.len() != "bgrabe"@.len());
            assert("rgb565le"@.len() != "bgrale"@.len());
            assert("rgb565le"@[6] != "rgb565be"@[6]);
        },
    }
}

/// What kind of content does a file hold?
#[derive(Debug, Clone, Copy, PartialEq, Eq, Structural)]
pub enum ContentType {
    /// Plain zlib encoded data.
    Z,
    /// A PNG image meant for the specified color mode of the device.
    PNG(ColorMode),
}

/// The file-name suffix that announces a content type.
pub open spec fn spec_suffix(ct: ContentType) -> Seq<char> {
    match ct {
        ContentType::Z => "raw.z"@,
        ContentType::PNG(m) => spec_mode_name(m) + ".png"@,
    }
}

/// The content type a file name announces: the first color-mode image
/// suffix the name ends with, in canonical mode order, else the raw
/// suffix, else none.
pub open spec fn spec_content_from_name(s: Seq<char>) -> Option<ContentType> {
    if text::spec_ends_with(s, spec_suffix(ContentType::PNG(ColorMode::Rgba(Endian::Big)))) {
        Some(ContentType::PNG(ColorMode::Rgba(Endian::Big)))
    } else if text::spec_ends_with(
        s,
        spec_suffix(ContentType::PNG(ColorMode::Rgba(Endian::Little))),
    ) {
        Some(ContentType::PNG(ColorMode::Rgba(Endian::Little)))
    } else if text::spec_ends_with(
        s,
        spec_suffix(ContentType::PNG(ColorMode::Bgra(Endian::Big))),
    ) {
        Some(ContentType::PNG(ColorMode::Bgra(Endian::Big)))
    } else if text::spec_ends_with(
        s,
        spec_suffix(ContentType::PNG(ColorMode::Bgra(Endian::Little))),
    ) {
        Some(ContentType::PNG(ColorMode::Bgra(Endian::Little)))
    } else if text::spec_ends_with(
        s,
        spec_suffix(ContentType::PNG(ColorMode::Rgb565(Endian::Big))),
    ) {
        Some(ContentType::PNG(ColorMode::Rgb565(Endian::Big)))
    } else if text::spec_ends_with(
        s,
        spec_suffix(ContentType::PNG(ColorMode::Rgb565(Endian::Little))),
    ) {
        Some(ContentType::PNG(ColorMode::Rgb565(Endian::Little)))
    } else if text::spec_ends_with(s, "raw.z"@) {
        Some(ContentType::Z)
    } else {
        None
    }
}

impl ContentType {
    /// Given a file name, can we say which content type it is?
    pub fn from_name(name: &str) -> (r: Option<ContentType>)
        ensures
            r == spec_content_from_name(name@),
    {
        let modes = ColorMode::enumerate();
        let mut i: usize = 0;
        while i < modes.len()
            invariant
                i <= 6,
                modes@ == ColorMode::spec_all_modes(),
                forall|k: int|
                    0 <= k < i ==> !text::spec_ends_with(
                        name@,
                        spec_suffix(ContentType::PNG(modes@[k])),
                    ),
            decreases modes@.len() - i,
        {
            let mut suffix = modes[i].name();
            suffix.append(".png");
            if text::str_ends_with(name, suffix.as_str()) {
                return Some(ContentType::PNG(modes[i]));
            }
            i = i + 1;
        }
        if text::str_ends_with(name, "raw.z") {
            Some(ContentType::Z)
        } else {
            None
        }
    }
}

/// Which slot a file belongs to, and what it holds.
#[derive(Debug, Clone, Copy, PartialEq, Eq, Structural)]
pub struct FileInfo {
    pub id: usize,
    pub content_type: ContentType,
}

/// The file name given to a slot: `logo_`, the zero-padded slot id, `_`,
/// and the content-type suffix.
pub open spec fn spec_filename(id: nat, ct: ContentType) -> Seq<char> {
    "logo_"@ + text::pad3(id) + "_"@ + spec_suffix(ct)
}

/// The result of parsing a slot file name: the number between the first
/// two underscores is the slot id, and the name's suffix gives the content
/// type.
pub open spec fn spec_from_name(s: Seq<char>) -> Result<FileInfo, NamingError> {
    match text::spec_find_char(s, 0, '_') {
        None => Err(NamingError::MissingIdToken),
        Some(i1) => {
            let end = match text::spec_find_char(s, i1 + 1, '_') {
                Some(i2) => i2,
                None => s.len() as int,
            };
            match text::spec_parse_usize(s.subrange(i1 + 1, end)) {
                None => Err(NamingError::BadIdToken),
                Some(v) => match spec_content_from_name(s) {
                    Some(ct) => Ok(FileInfo { id: v as usize, content_type: ct }),
                    None => Err(NamingError::UnknownSuffix),
                },
            }
        },
    }
}

impl FileInfo {
    /// How would we name the file for this image slot?
    pub fn filename(&self) -> (r: String)
        ensures
            r@ == spec_filename(self.id as nat, self.content_type),
    {
        let mut s = String::from_str("logo_");
        let id3 = text::format_id3(self.id);
        s.append(id3.as_str());
        s.append("_");
        match self.content_type {
            ContentType::Z => {
                s.append("raw.z");
            },
            ContentType::PNG(m) => {
                let n = m.name();
                s.append(n.as_str());
                s.append(".png");
            },
        }
        proof {
            assert(s@ =~= spec_filename(self.id as nat, self.content_type));
        }
        s
    }

    /// The file info of slot `id`, raw when `zip` is set, else an image in
    /// the given color mode.
    pub fn from_info(id: usize, zip: bool, color_model: &ColorMode) -> (r: FileInfo)
        ensures
            r.id == id,
            r.content_type == if zip {
                ContentType::Z
            } else {
                ContentType::PNG(*color_model)
            },
    {
        FileInfo {
            id,
            content_type: if zip {
                ContentType::Z
            } else {
                ContentType::PNG(*color_model)
            },
        }
    }

    /// Parses a slot file name back into slot id and content type; the
    /// errors single out a name without an id token, an id token that is
    /// not a number, and an unrecognized suffix.
    pub fn from_name(name: &str) -> (r: Result<FileInfo, NamingError>)
        ensures
            r == spec_from_name(name@),
    {
        let len = name.unicode_len();
        let i1 = match text::find_char(name, 0, '_') {
            Some(i) => i,
            None => { return Err(NamingError::MissingIdToken); },
        };
        proof {
            text::lemma_find_char_props(name@, 0, '_');
        }
        let end = match text::find_char(name, i1 + 1, '_') {
            Some(i2) => i2,
            None => len,
        };
        proof {
            text::lemma_find_char_props(name@, i1 + 1, '_');
        }
        let token = name.substring_char(i1 + 1, end);
        let id = match text::parse_usize_str(token) {
            Some(v) => v,
            None => { return Err(NamingError::BadIdToken); },
        };
        match ContentType::from_name(name) {
            Some(ct) => Ok(FileInfo { id, content_type: ct }),
            None => Err(NamingError::UnknownSuffix),
        }
    }
}

/// Does the file at position `x` come before the file at position `y`
/// when slots are packed? The slot ids decide; files with equal ids keep
/// their original order.
pub open spec fn spec_slot_before(infos: Seq<FileInfo>, x: int, y: int) -> bool
    recommends
        0 <= x < infos.len(),
        0 <= y < infos.len(),
{
    infos[x].id < infos[y].id || (infos[x].id == infos[y].id && x < y)
}

/// Compares two file positions in slot order.
fn slot_comes_first(infos: &Vec<FileInfo>, x: usize, y: usize) -> (r: bool)
    requires
        x < infos@.len(),
        y < infos@.len(),
    ensures
        r == spec_slot_before(infos@, x as int, y as int),
{
    let idx = infos[x].id;
    let idy = infos[y].id;
    idx < idy || (idx == idy && x < y)
}

/// The order in which a list of slot files is packed: the files'
/// positions, sorted stably by slot id. The clauses pin the result — a
/// list of positions of the input, strictly ordered by slot id with ties
/// kept in original order, is unique.
pub fn slot_order(infos: &Vec<FileInfo>) -> (r: Vec<usize>)
    ensures
        r@.len() == infos@.len(),
        forall|k: int| 0 <= k < r@.len() ==> r@[k] < infos@.len(),
        forall|a: int, b: int|
            0 <= a < b < r@.len() ==> spec_slot_before(infos@, r@[a] as int, r@[b] as int),
{
    let n = infos.len();
    let mut order: Vec<usize> = Vec::with_capacity(n);
    let mut i: usize = 0;
    while i < n
        invariant
            i <= n,
            order@.len() == i,
            forall|k: int| 0 <= k < i ==> order@[k] == k,
        decreases n - i,
    {
        order.push(i);
        i = i + 1;
    }
    let mut i: usize = 0;
    while i < n
        invariant
            i <= n,
            n == infos@.len(),
            order@.len() == n,
            forall|k: int| 0 <= k < n ==> order@[k] < n,
            forall|a: int, b: int| 0 <= a < b < n ==> order@[a] != order@[b],
            forall|a: int, b: int|
                0 <= a < b < i ==> spec_slot_before(infos@, order@[a] as int, order@[b] as int),
        decreases n - i,
    {
        let mut j: usize = i;
        while j > 0 && slot_comes_first(infos, order[j], order[j - 1])
            invariant
                j <= i < n,
                n == infos@.len(),
                order@.len() == n,
                forall|k: int| 0 <= k < n ==> order@[k] < n,
                forall|a: int, b: int| 0 <= a < b < n ==> order@[a] != order@[b],
                forall|a: int, b: int|
                    0 <= a < b <= i && b != j ==> spec_slot_before(
                        infos@,
                        order@[a] as int,
                        order@[b] as int,
                    ),
                forall|b: int|
                    j < b <= i ==> spec_slot_before(infos@, order@[j as int] as int, order@[b] as int),
            decreases j,
        {
            let x = order[j - 1];
            let y = order[j];
            order.set(j - 1, y);
            order.set(j, x);
            j = j - 1;
        }
        proof {
            assert forall|a: int, b: int| 0 <= a < b <= i as int implies spec_slot_before(
                infos@,
                order@[a] as int,
                order@[b] as int,
            ) by {
                if b == j as int && j > 0 {
                    assert(order@[j - 1] != order@[j as int]);
                    assert(spec_slot_before(infos@, order@[j - 1] as int, order@[j as int] as int));
                    if a < j - 1 {
                        assert(spec_slot_before(infos@, order@[a] as int, order@[j - 1] as int));
                    }
                }
            }
        }
        i = i + 1;
    }
    order
}

/// Helper: a name does not end with a suffix whose character `k` differs
/// from the name's corresponding tail character.
proof fn lemma_not_ends_with_at(s: Seq<char>, t: Seq<char>, k: int)
    requires
        0 <= k < t.len() <= s.len(),
        s[s.len() - t.len() + k] != t[k],
    ensures
        !text::spec_ends_with(s, t),
{
    if text::spec_ends_with(s, t) {
        assert(s.subrange(s.len() - t.len(), s.len() as int)[k] == t[k]);
    }
}

/// Helper for the file-name round trip: a generated slot file name
/// announces exactly the content type it was generated from.
#[verifier::rlimit(100)]
proof fn lemma_content_of_filename(id: usize, ct: ContentType)
    ensures
        spec_content_from_name(spec_filename(id as nat, ct)) == Some(ct),
{
    reveal_strlit("logo_");
    reveal_strlit("_");
    reveal_strlit(".png");
    reveal_strlit("raw.z");
    reveal_strlit("rgbabe");
    reveal_strlit("rgbale");
    reveal_strlit("bgrabe");
    reveal_strlit("bgrale");
    reveal_strlit("rgb565be");
    reveal_strlit("rgb565le");
    text::lemma_pad3_props(id as nat);
    let s = spec_filename(id as nat, ct);
    let sfx = spec_suffix(ct);
    let plen = text::pad3(id as nat).len() as int;
    assert(s.len() == 6 + plen + sfx.len());
    assert(s.subrange(s.len() - sfx.len(), s.len() as int) =~= sfx);
    assert(text::spec_ends_with(s, sfx));
    let t_rgbabe = spec_suffix(ContentType::PNG(ColorMode::Rgba(Endian::Big)));
    let t_rgbale = spec_suffix(ContentType::PNG(ColorMode::Rgba(Endian::Little)));
    let t_bgrabe = spec_suffix(ContentType::PNG(ColorMode::Bgra(Endian::Big)));
    let t_bgrale = spec_suffix(ContentType::PNG(ColorMode::Bgra(Endian::Little)));
    let t_565be = spec_suffix(ContentType::PNG(ColorMode::Rgb565(Endian::Big)));
    let t_565le = spec_suffix(ContentType::PNG(ColorMode::Rgb565(Endian::Little)));
    match ct {
        ContentType::Z => {
            assert(s[s.len() - 1] == 'z');
            lemma_not_ends_with_at(s, t_rgbabe, 9);
            lemma_not_ends_with_at(s, t_rgbale, 9);
            lemma_not_ends_with_at(s, t_bgrabe, 9);
            lemma_not_ends_with_at(s, t_bgrale, 9);
            lemma_not_ends_with_at(s, t_565be, 11);
            lemma_not_ends_with_at(s, t_565le, 11);
        },
        ContentType::PNG(m) => {
            match m {
                ColorMode::Rgba(Endian::Big) => {
                },
                ColorMode::Rgba(Endian::Little) => {
                    assert(s[s.len() - 10 + 4] == sfx[4]);
                    lemma_not_ends_with_at(s, t_rgbabe, 4);
                },
                ColorMode::Bgra(Endian::Big) => {
                    assert(s[s.len() - 10] == sfx[0]);
                    lemma_not_ends_with_at(s, t_rgbabe, 0);
                    lemma_not_ends_with_at(s, t_rgbale, 0);
                },
                ColorMode::Bgra(Endian::Little) => {
                    assert(s[s.len() - 10] == sfx[0]);
                    assert(s[s.len() - 10 + 4] == sfx[4]);
                    lemma_not_ends_with_at(s, t_rgbabe, 0);
                    lemma_not_ends_with_at(s, t_rgbale, 0);
                    lemma_not_ends_with_at(s, t_bgrabe, 4);
                },
                ColorMode::Rgb565(Endian::Big) => {
                    assert(s[s.len() - 10] == sfx[2]);
                    assert(s[s.len() - 10 + 1] == sfx[3]);
                    lemma_not_ends_with_at(s, t_rgbabe, 0);
                    lemma_not_ends_with_at(s, t_rgbale, 0);
                    lemma_not_ends_with_at(s, t_bgrabe, 1);
                    lemma_not_ends_with_at(s, t_bgrale, 1);
                },
                ColorMode::Rgb565(Endian::Little) => {
                    assert(s[s.len() - 10] == sfx[2]);
                    assert(s[s.len() - 10 + 1] == sfx[3]);
                    assert(s[s.len() - 12 + 6] == sfx[6]);
                    lemma_not_ends_with_at(s, t_rgbabe, 0);
                    lemma_not_ends_with_at(s, t_rgbale, 0);
                    lemma_not_ends_with_at(s, t_bgrabe, 1);
                    lemma_not_ends_with_at(s, t_bgrale, 1);
                    lemma_not_ends_with_at(s, t_565be, 6);
                },
            }
        },
    }
}

/// File-name round trip: parsing the file name generated for any slot id
/// and content type recovers both exactly.
#[verifier::rlimit(100)]
pub proof fn lemma_filename_round_trip(id: usize, ct: ContentType)
    ensures
        spec_from_name(spec_filename(id as nat, ct)) == Ok::<FileInfo, NamingError>(
            FileInfo { id, content_type: ct },
        ),
{
    reveal_strlit("logo_");
    reveal_strlit("_");
    text::lemma_pad3_props(id as nat);
    let s = spec_filename(id as nat, ct);
    let p = text::pad3(id as nat);
    let plen = p.len() as int;
    let sfx = spec_suffix(ct);
    assert(s.len() == 6 + plen + sfx.len());
    assert(s[4] == '_');
    assert(forall|k: int| 0 <= k < 4 ==> s[k] == "logo_"@[k]);
    assert(forall|k: int| 0 <= k < 4 ==> s[k] != '_');
    text::lemma_find_char_at(s, 0, '_', 4);
    assert(s[5 + plen] == '_');
    assert forall|k: int| 5 <= k < 5 + plen implies s[k] != '_' by {
        assert(s[k] == p[k - 5]);
        assert(text::is_digit_char(p[k - 5]));
    }
    text::lemma_find_char_at(s, 5, '_', 5 + plen);
    assert(s.subrange(5, 5 + plen) =~= p);
    assert(text::spec_parse_usize(p) == Some(id as int));
    lemma_content_of_filename(id, ct);
}

} // verus!
