use vstd::prelude::*;

verus! {

/// The three supported platforms.
///
/// On the wire a platform is one byte: Roblox is 0x01, Minecraft 0x02 and
/// Hytale 0x03.
#[derive(Debug, Clone, Copy, PartialEq, Eq, Hash, Structural)]
pub enum Platform {
    Roblox,
    Minecraft,
    Hytale,
}

/// The wire byte of a platform.
pub open spec fn platform_code(p: Platform) -> u8 {
    match p {
        Platform::Roblox => 0x01,
        Platform::Minecraft => 0x02,
        Platform::Hytale => 0x03,
    }
}

/// The platform that a wire byte stands for, if any.
pub open spec fn platform_from_code(b: u8) -> Option<Platform> {
    if b == 0x01 {
        Some(Platform::Roblox)
    } else if b == 0x02 {
        Some(Platform::Minecraft)
    } else if b == 0x03 {
        Some(Platform::Hytale)
    } else {
        None
    }
}

/// The display name of a platform.
pub open spec fn platform_name(p: Platform) -> Seq<char> {
    match p {
        Platform::Roblox => "Roblox"@,
        Platform::Minecraft => "Minecraft"@,
        Platform::Hytale => "Hytale"@,
    }
}

/// Every platform's code decodes back to that platform, and a byte that
/// decodes to a platform is that platform's code.
pub proof fn lemma_platform_code_roundtrip(p: Platform, b: u8)
    ensures
        platform_from_code(platform_code(p)) == Some(p),
        platform_from_code(b) == Some(p) ==> platform_code(p) == b,
{
}

/// The platform byte of the wire format: Roblox is 0x01, Minecraft 0x02
/// and Hytale 0x03, and no other byte names a platform.
pub proof fn lemma_platform_wire_bytes(b: u8)
    ensures
        platform_code(Platform::Roblox) == 1u8,
        platform_code(Platform::Minecraft) == 2u8,
        platform_code(Platform::Hytale) == 3u8,
        platform_from_code(1u8) == Some(Platform::Roblox),
        platform_from_code(2u8) == Some(Platform::Minecraft),
        platform_from_code(3u8) == Some(Platform::Hytale),
        b < 1 || b > 3 ==> platform_from_code(b) is None,
{
}

impl Platform {
    /// The wire byte of this platform.
    pub fn to_byte(&self) -> (b: u8)
        ensures
            b == platform_code(*self),
    {
        match self {
            Platform::Roblox => 0x01,
            Platform::Minecraft => 0x02,
            Platform::Hytale => 0x03,
        }
    }

    /// The platform whose wire byte is `b`; `None` for any other byte.
    pub fn from_byte(b: u8) -> (p: Option<Platform>)
        ensures
            p == platform_from_code(b),
    {
        match b {
            0x01 => Some(Platform::Roblox),
            0x02 => Some(Platform::Minecraft),
            0x03 => Some(Platform::Hytale),
            _ => None,
        }
    }

    /// The display name: "Roblox", "Minecraft" or "Hytale".
    pub fn name(&self) -> (s: &'static str)
        ensures
            s@ == platform_name(*self),
    {
        proof {
            reveal_strlit("Roblox");
            reveal_strlit("Minecraft");
            reveal_strlit("Hytale");
        }
        match self {
            Platform::Roblox => "Roblox",
            Platform::Minecraft => "Minecraft",
            Platform::Hytale => "Hytale",
        }
    }
}

} // verus!
