//! The configuration.

pub mod terminal;
pub mod themes;

use vstd::prelude::*;

use crate::text::{
    hex_byte, hex_padded, law_hex_bytes_are_read_back, push_hex_padded, value_in_base,
};

verus! {

pub const INITIAL_WIDTH: i32 = 802;

pub const INITIAL_HEIGHT: i32 = 648;

pub const APPLICATION_TITLE: &'static str = "ivyTerm";

pub const SPLIT_HANDLE_WIDTH: i32 = 10;

pub const SPLIT_VISUAL_WIDTH: i32 = 2;

// ---------------------------------------------------------------------------
// The file
// ---------------------------------------------------------------------------

/// What the program found when it looked for its configuration file.
#[derive(Clone, Copy, Debug, PartialEq, Eq, Structural)]
pub enum ConfigFound {
    /// There is no home directory to look in
    NoHome,
    /// The file is there and was loaded
    Loaded,
    /// The file is there and could not be loaded
    Broken,
    /// There is no file, and its directory exists now
    NoFile,
    /// There is no file, and its directory could not be created
    NoDirectory,
}

/// What the program starts with.
#[derive(Clone, Copy, Debug, PartialEq, Eq, Structural)]
pub struct ConfigPlan {
    /// The loaded configuration, rather than the built-in one
    pub use_loaded: bool,
    /// The file is remembered, so that later changes are written to it
    pub keep_path: bool,
    /// The configuration is written to the file right away
    pub write_now: bool,
}

/// What the program starts with: any failure falls back to the built-in
/// defaults. A broken file is remembered but left untouched: explicit changes
/// made in the settings window still persist.
pub open spec fn planned(found: ConfigFound) -> ConfigPlan {
    match found {
        ConfigFound::Loaded => ConfigPlan { use_loaded: true, keep_path: true, write_now: true },
        ConfigFound::Broken => ConfigPlan { use_loaded: false, keep_path: true, write_now: false },
        ConfigFound::NoFile => ConfigPlan { use_loaded: false, keep_path: true, write_now: true },
        ConfigFound::NoHome | ConfigFound::NoDirectory => ConfigPlan {
            use_loaded: false,
            keep_path: false,
            write_now: false,
        },
    }
}

/// What the program starts with.
pub fn plan_config(found: ConfigFound) -> (plan: ConfigPlan)
    ensures
        plan == planned(found),
{
    match found {
        ConfigFound::Loaded => ConfigPlan { use_loaded: true, keep_path: true, write_now: true },
        ConfigFound::Broken => ConfigPlan { use_loaded: false, keep_path: true, write_now: false },
        ConfigFound::NoFile => ConfigPlan { use_loaded: false, keep_path: true, write_now: true },
        ConfigFound::NoHome | ConfigFound::NoDirectory => ConfigPlan {
            use_loaded: false,
            keep_path: false,
            write_now: false,
        },
    }
}

/// A file is only ever written at the start where it holds nothing of the
/// user's that would be lost: what was loaded from it, or nothing at all.
pub proof fn law_broken_files_are_left_untouched(found: ConfigFound)
    ensures
        planned(found).write_now ==> planned(found).keep_path && (found == ConfigFound::NoFile
            || planned(found).use_loaded),
        planned(found).use_loaded <==> found == ConfigFound::Loaded,
{
}

// ---------------------------------------------------------------------------
// Colors and fonts
// ---------------------------------------------------------------------------

/// A color by its channels, from 0 to 255 where they are in range.
#[derive(Clone, Copy, Debug, PartialEq, Eq, Structural)]
pub struct IvyColor {
    pub red: i32,
    pub green: i32,
    pub blue: i32,
}

/// A channel in base sixteen: two digits where it is in range, and a negative
/// one as its two's complement.
pub open spec fn channel_hex(channel: i32) -> Seq<char> {
    hex_padded(
        (if channel < 0 {
            channel + 0x1_0000_0000
        } else {
            channel as int
        }) as nat,
        true,
    )
}

fn push_channel(out: &mut String, channel: i32)
    ensures
        final(out)@ == old(out)@ + channel_hex(channel),
{
    let wide: i64 = channel as i64;
    let bits: u32 = if wide < 0 {
        (wide + 0x1_0000_0000) as u32
    } else {
        wide as u32
    };
    push_hex_padded(out, bits, true);
}

impl IvyColor {
    /// The color as it is written in the configuration: `#RRGGBB`.
    pub fn to_hex(&self) -> (hex: String)
        ensures
            hex@ == seq!['#'] + channel_hex(self.red) + channel_hex(self.green) + channel_hex(
                self.blue,
            ),
    {
        let mut hex = String::new();
        hex.push('#');
        assert(hex@ =~= seq!['#']);
        push_channel(&mut hex, self.red);
        push_channel(&mut hex, self.green);
        push_channel(&mut hex, self.blue);
        hex
    }
}

/// A font by its description, e.g. "Monospace 12".
#[derive(Debug)]
pub struct IvyFont {
    pub description: String,
}

impl IvyFont {
    pub fn new(font: &str) -> (r: IvyFont)
        ensures
            r.description@ == font@,
    {
        IvyFont { description: font.to_string() }
    }
}

/// The program starts with what was loaded exactly where a file was loaded,
/// keeps the file in mind wherever there is or could be one, and writes it
/// where it was loaded or is not there yet.
pub proof fn law_configurations_are_kept(found: ConfigFound)
    ensures
        planned(found).use_loaded <==> found == ConfigFound::Loaded,
        planned(found).keep_path <==> found == ConfigFound::Loaded || found == ConfigFound::Broken
            || found == ConfigFound::NoFile,
        planned(found).write_now <==> found == ConfigFound::Loaded || found == ConfigFound::NoFile,
{
}

/// A channel in range is written with two digits, in capital letters, and read
/// back as itself.
pub proof fn law_channels_are_read_back(channel: i32)
    requires
        0 <= channel <= 255,
    ensures
        channel_hex(channel).len() == 2,
        value_in_base(channel_hex(channel), 16) == channel,
        forall|i: int|
            0 <= i < 2 ==> {
                let c = #[trigger] channel_hex(channel)[i];
                '0' <= c <= '9' || 'A' <= c <= 'F'
            },
{
    let b = channel as u8;
    law_hex_bytes_are_read_back(b, true);
    assert(channel_hex(channel) == hex_byte(b, true));
    assert forall|i: int| 0 <= i < 2 implies ({
        let c = #[trigger] channel_hex(channel)[i];
        '0' <= c <= '9' || 'A' <= c <= 'F'
    }) by {
        assert(channel_hex(channel)[i] == hex_byte(b, true)[i]);
    }
}

} // verus!
