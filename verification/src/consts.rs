//! Constants of the OpenRGB SDK protocol and of VIA raw HID devices.

use vstd::prelude::*;

verus! {

/// The highest OpenRGB SDK protocol version this server speaks.
pub const OPENRGB_PROTOCOL_VERSION: u32 = 3;

/// OpenRGB device type of a keyboard.
pub const DEVICE_TYPE_KEYBOARD: u32 = 5;

/// OpenRGB zone type of a two-dimensional LED matrix.
pub const ZONE_TYPE_MATRIX: u32 = 2;

/// HID usage id of the raw HID interface that VIA keyboards expose.
pub const QMK_USAGE_ID: u16 = 0x61;

/// HID usage page of the raw HID interface that VIA keyboards expose.
pub const QMK_USAGE_PAGE: u16 = 0xFF60;

/// Mode flag: the mode has a speed setting.
pub const MODE_FLAG_HAS_SPEED: u32 = 1;

/// Mode flag: the mode has a brightness setting.
pub const MODE_FLAG_HAS_BRIGHTNESS: u32 = 16;

/// Mode flag: every LED has a colour of its own (direct mode).
pub const MODE_FLAG_HAS_PER_LED_COLOR: u32 = 32;

/// Mode flag: the mode has colours of its own.
pub const MODE_FLAG_HAS_MODE_SPECIFIC_COLOR: u32 = 64;

/// Mode flag: the mode picks random colours.
pub const MODE_FLAG_HAS_RANDOM_COLOR: u32 = 128;

/// Mode flag: the mode is saved to the device on request only.
pub const MODE_FLAG_MANUAL_SAVE: u32 = 256;

/// The requests of the OpenRGB SDK protocol that the server answers.
#[derive(Clone, Copy, Debug, PartialEq, Eq, Structural)]
pub enum Request {
    GetControllerCount,
    GetControllerData,
    GetProtocolVersion,
    SetClientName,
    GetProfileList,
    SaveProfile,
    LoadProfile,
    DeleteProfile,
    ResizeZone,
    UpdateLeds,
    UpdateZoneLeds,
    UpdateSingleLed,
    SetCustomMode,
    UpdateMode,
    SaveMode,
}

/// The packet id of each request.
pub open spec fn request_id(request: Request) -> u32 {
    match request {
        Request::GetControllerCount => 0,
        Request::GetControllerData => 1,
        Request::GetProtocolVersion => 40,
        Request::SetClientName => 50,
        Request::GetProfileList => 150,
        Request::SaveProfile => 151,
        Request::LoadProfile => 152,
        Request::DeleteProfile => 153,
        Request::ResizeZone => 1000,
        Request::UpdateLeds => 1050,
        Request::UpdateZoneLeds => 1051,
        Request::UpdateSingleLed => 1052,
        Request::SetCustomMode => 1100,
        Request::UpdateMode => 1101,
        Request::SaveMode => 1102,
    }
}

impl Request {
    /// The packet id of this request.
    pub fn id(self) -> (id: u32)
        ensures
            id == request_id(self),
    {
        match self {
            Request::GetControllerCount => 0,
            Request::GetControllerData => 1,
            Request::GetProtocolVersion => 40,
            Request::SetClientName => 50,
            Request::GetProfileList => 150,
            Request::SaveProfile => 151,
            Request::LoadProfile => 152,
            Request::DeleteProfile => 153,
            Request::ResizeZone => 1000,
            Request::UpdateLeds => 1050,
            Request::UpdateZoneLeds => 1051,
            Request::UpdateSingleLed => 1052,
            Request::SetCustomMode => 1100,
            Request::UpdateMode => 1101,
            Request::SaveMode => 1102,
        }
    }

    /// The request with packet id `id`, if there is one.
    pub fn from_id(id: u32) -> (request: Option<Request>)
        ensures
            match request {
                Some(r) => request_id(r) == id,
                None => forall|r: Request| request_id(r) != id,
            },
    {
        let request = if id == 0 {
            Request::GetControllerCount
        } else if id == 1 {
            Request::GetControllerData
        } else if id == 40 {
            Request::GetProtocolVersion
        } else if id == 50 {
            Request::SetClientName
        } else if id == 150 {
            Request::GetProfileList
        } else if id == 151 {
            Request::SaveProfile
        } else if id == 152 {
            Request::LoadProfile
        } else if id == 153 {
            Request::DeleteProfile
        } else if id == 1000 {
            Request::ResizeZone
        } else if id == 1050 {
            Request::UpdateLeds
        } else if id == 1051 {
            Request::UpdateZoneLeds
        } else if id == 1052 {
            Request::UpdateSingleLed
        } else if id == 1100 {
            Request::SetCustomMode
        } else if id == 1101 {
            Request::UpdateMode
        } else if id == 1102 {
            Request::SaveMode
        } else {
            return None;
        };
        Some(request)
    }
}

/// Packet ids name requests one to one: decoding the id of a request gives it back.
pub proof fn lemma_request_id_roundtrip(request: Request)
    ensures
        forall|other: Request| request_id(other) == request_id(request) ==> other == request,
{
}

/// Whether a HID interface is the raw HID interface that VIA keyboards are driven through.
pub fn is_compatible(usage_id: u16, usage_page: u16) -> (compatible: bool)
    ensures
        compatible == (usage_id == QMK_USAGE_ID && usage_page == QMK_USAGE_PAGE),
{
    usage_id == QMK_USAGE_ID && usage_page == QMK_USAGE_PAGE
}

} // verus!
