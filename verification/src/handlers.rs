//! The OpenRGB SDK requests: how each is routed, and the payloads of the answers.

use vstd::prelude::*;
use vstd::string::{StrSliceExecFns, StringSliceAdditionalSpecFns};
use vstd::utf8::encode_utf8;

use crate::config::{hex_id_value, led_count, mode_index_of, Config, Effect, Led};
use crate::consts::{
    request_id, Request, DEVICE_TYPE_KEYBOARD, MODE_FLAG_HAS_MODE_SPECIFIC_COLOR,
    MODE_FLAG_HAS_PER_LED_COLOR, MODE_FLAG_HAS_RANDOM_COLOR, OPENRGB_PROTOCOL_VERSION,
    ZONE_TYPE_MATRIX,
};
use crate::text::chars_of;
use crate::utils::{
    color_bytes, le_i32, le_u16, le_u32, lemma_u32_roundtrip, push_bytes, push_i32,
    push_str_bytes, push_u16, push_u32, str_field, u32_from_le, u32s_bytes, BufferExt, Color,
};

verus! {

/// The lighting state of a keyboard that a controller description reports.
#[derive(Debug)]
pub struct KeyboardState {
    /// The effect id of the current effect.
    pub effect: u8,
    /// The current effect speed.
    pub speed: u8,
    /// The current brightness.
    pub brightness: u8,
    /// The current effect colour.
    pub color: Color,
    /// The current colour of each LED.
    pub colors: Vec<Color>,
}

/// The ASCII code of the lowercase hexadecimal digit `n`.
pub open spec fn hex_digit(n: u16) -> u8 {
    if n < 10 {
        (0x30 + n) as u8
    } else {
        (0x61 + n - 10) as u8
    }
}

/// `v` as four lowercase hexadecimal digits (`{:04x}`).
pub open spec fn hex4(v: u16) -> Seq<u8> {
    seq![
        hex_digit((v >> 12) & 0xf),
        hex_digit((v >> 8) & 0xf),
        hex_digit((v >> 4) & 0xf),
        hex_digit(v & 0xf),
    ]
}

/// The USB id of a device: `vvvv:pppp` in lowercase hexadecimal.
pub open spec fn device_id_text(vendor_id: u16, product_id: u16) -> Seq<u8> {
    hex4(vendor_id) + seq![0x3Au8] + hex4(product_id)
}

fn push_hex_digit(buf: &mut Vec<u8>, n: u16)
    requires
        n < 16,
    ensures
        final(buf)@ == old(buf)@.push(hex_digit(n)),
{
    if n < 10 {
        buf.push((0x30 + n) as u8);
    } else {
        buf.push((0x61 + n - 10) as u8);
    }
}

fn push_hex4(buf: &mut Vec<u8>, v: u16)
    ensures
        final(buf)@ == old(buf)@ + hex4(v),
{
    assert((v >> 12) & 0xf < 16 && (v >> 8) & 0xf < 16 && (v >> 4) & 0xf < 16 && v & 0xf < 16)
        by (bit_vector);
    push_hex_digit(buf, (v >> 12) & 0xf);
    push_hex_digit(buf, (v >> 8) & 0xf);
    push_hex_digit(buf, (v >> 4) & 0xf);
    push_hex_digit(buf, v & 0xf);
    assert(final(buf)@ =~= old(buf)@ + hex4(v));
}

/// The USB id of a device, `vvvv:pppp`, as ASCII bytes.
pub fn device_id(vendor_id: u16, product_id: u16) -> (id: Vec<u8>)
    ensures
        id@ == device_id_text(vendor_id, product_id),
{
    let mut id: Vec<u8> = Vec::new();
    push_hex4(&mut id, vendor_id);
    id.push(0x3A);
    push_hex4(&mut id, product_id);
    assert(id@ =~= device_id_text(vendor_id, product_id));
    id
}

/// How OpenRGB colours a mode: per LED (1), with mode colours (2), randomly (3), or not (0).
pub open spec fn color_mode(flags: u32) -> u32 {
    if flags & MODE_FLAG_HAS_PER_LED_COLOR != 0 {
        1
    } else if flags & MODE_FLAG_HAS_MODE_SPECIFIC_COLOR != 0 {
        2
    } else if flags & MODE_FLAG_HAS_RANDOM_COLOR != 0 {
        3
    } else {
        0
    }
}

/// The opening of a controller description: device type, name and (from protocol
/// version 1 on) vendor.
pub open spec fn controller_names(config: &Config, protocol_version: u32) -> Seq<u8> {
    le_u32(DEVICE_TYPE_KEYBOARD) + str_field(encode_utf8(config.name@)) + (if protocol_version
        >= 1 {
        str_field(encode_utf8(config.vendor@))
    } else {
        Seq::empty()
    })
}

/// The description, version, serial and location strings of a controller.
pub open spec fn controller_labels(config: &Config, version: Seq<u8>) -> Seq<u8> {
    let id = device_id_text(config.vendor_id, config.product_id);
    str_field(encode_utf8(config.name@) + encode_utf8(" via ColorHoster"@)) + str_field(version)
        + str_field(id) + str_field(encode_utf8("HID: "@) + id)
}

/// The opening of a controller description: device type, names, version, ids, the number of
/// modes and the active mode.
pub open spec fn controller_header(
    config: &Config,
    version: Seq<u8>,
    protocol_version: u32,
    active_mode: i32,
) -> Seq<u8> {
    controller_names(config, protocol_version) + controller_labels(config, version) + le_u16(
        config.effects@.len() as u16,
    ) + le_i32(active_mode)
}

/// The first part of a mode description: name, effect id, flags and the setting ranges.
pub open spec fn mode_head(effect: Effect, config: &Config, protocol_version: u32) -> Seq<u8> {
    str_field(encode_utf8(effect.0@)) + le_i32(effect.1) + le_u32(effect.2) + le_u32(
        config.speed.0,
    ) + le_u32(config.speed.1) + (if protocol_version >= 3 {
        le_u32(config.brightness.0) + le_u32(config.brightness.1)
    } else {
        Seq::empty()
    })
}

/// The second part of a mode description: colour counts, current settings, direction,
/// colour mode and the mode colour.
pub open spec fn mode_tail(effect: Effect, state: &KeyboardState, protocol_version: u32) -> Seq<
    u8,
> {
    le_u32(1) + le_u32(1) + le_u32(state.speed as u32) + (if protocol_version >= 3 {
        le_u32(state.brightness as u32)
    } else {
        Seq::empty()
    }) + le_u32(0) + le_u32(color_mode(effect.2)) + le_u16(1) + color_bytes(state.color)
}

/// The description of one mode.
pub open spec fn mode_record(
    effect: Effect,
    config: &Config,
    state: &KeyboardState,
    protocol_version: u32,
) -> Seq<u8> {
    mode_head(effect, config, protocol_version) + mode_tail(effect, state, protocol_version)
}

/// The descriptions of the modes `effects`, one after the other.
pub open spec fn mode_records(
    effects: Seq<Effect>,
    config: &Config,
    state: &KeyboardState,
    protocol_version: u32,
) -> Seq<u8>
    decreases effects.len(),
{
    if effects.len() == 0 {
        Seq::empty()
    } else {
        mode_records(effects.drop_last(), config, state, protocol_version) + mode_record(
            effects.last(),
            config,
            state,
            protocol_version,
        )
    }
}

fn push_mode_head(buf: &mut Vec<u8>, effect: &Effect, config: &Config, protocol_version: u32)
    ensures
        final(buf)@ == old(buf)@ + mode_head(*effect, config, protocol_version),
{
    let ghost start = buf@;
    buf.extend_from_str(effect.0.as_str());
    push_i32(buf, effect.1);
    push_u32(buf, effect.2);
    push_u32(buf, config.speed.0);
    push_u32(buf, config.speed.1);
    let ghost mid = buf@;
    assert(mid =~= start + (str_field(encode_utf8(effect.0@)) + le_i32(effect.1) + le_u32(
        effect.2,
    ) + le_u32(config.speed.0) + le_u32(config.speed.1)));
    if protocol_version >= 3 {
        push_u32(buf, config.brightness.0);
        push_u32(buf, config.brightness.1);
        assert(buf@ =~= mid + (le_u32(config.brightness.0) + le_u32(config.brightness.1)));
    }
    assert(buf@ =~= start + mode_head(*effect, config, protocol_version));
}

fn push_mode_tail(buf: &mut Vec<u8>, effect: &Effect, state: &KeyboardState, protocol_version: u32)
    ensures
        final(buf)@ == old(buf)@ + mode_tail(*effect, state, protocol_version),
{
    let ghost start = buf@;
    let mode_colors: u32 = 1;
    push_u32(buf, mode_colors);
    push_u32(buf, mode_colors);
    push_u32(buf, state.speed as u32);
    let ghost mid = buf@;
    if protocol_version >= 3 {
        push_u32(buf, state.brightness as u32);
    }
    let ghost mid2 = buf@;
    assert(mid2 =~= start + (le_u32(1) + le_u32(1) + le_u32(state.speed as u32) + (
    if protocol_version >= 3 {
        le_u32(state.brightness as u32)
    } else {
        Seq::empty()
    })));
    push_u32(buf, 0);
    let mode: u32 = if effect.2 & MODE_FLAG_HAS_PER_LED_COLOR != 0 {
        1u32
    } else if effect.2 & MODE_FLAG_HAS_MODE_SPECIFIC_COLOR != 0 {
        2u32
    } else if effect.2 & MODE_FLAG_HAS_RANDOM_COLOR != 0 {
        3u32
    } else {
        0u32
    };
    push_u32(buf, mode);
    push_u16(buf, 1);
    buf.extend_from_color(&state.color);
    assert(buf@ =~= mid2 + (le_u32(0) + le_u32(color_mode(effect.2)) + le_u16(1) + color_bytes(
        state.color,
    )));
    assert(buf@ =~= start + mode_tail(*effect, state, protocol_version));
}

fn push_mode_record(
    buf: &mut Vec<u8>,
    effect: &Effect,
    config: &Config,
    state: &KeyboardState,
    protocol_version: u32,
)
    ensures
        final(buf)@ == old(buf)@ + mode_record(*effect, config, state, protocol_version),
{
    push_mode_head(buf, effect, config, protocol_version);
    push_mode_tail(buf, effect, state, protocol_version);
    assert(final(buf)@ =~= old(buf)@ + mode_record(*effect, config, state, protocol_version));
}

fn push_controller_header(
    buf: &mut Vec<u8>,
    config: &Config,
    version: &[u8],
    protocol_version: u32,
    active_mode: i32,
)
    ensures
        final(buf)@ == old(buf)@ + controller_header(config, version@, protocol_version, active_mode),
{
    let ghost start = buf@;
    push_u32(buf, DEVICE_TYPE_KEYBOARD);
    buf.extend_from_str(config.name.as_str());
    let ghost mid = buf@;
    if protocol_version >= 1 {
        buf.extend_from_str(config.vendor.as_str());
    }
    let ghost names = buf@;
    assert(names =~= start + controller_names(config, protocol_version));
    let mut label: Vec<u8> = Vec::new();
    push_bytes(&mut label, config.name.as_str().as_bytes());
    push_bytes(&mut label, " via ColorHoster".as_bytes());
    push_str_bytes(buf, label.as_slice());
    push_str_bytes(buf, version);
    let id = device_id(config.vendor_id, config.product_id);
    push_str_bytes(buf, id.as_slice());
    let mut location: Vec<u8> = Vec::new();
    push_bytes(&mut location, "HID: ".as_bytes());
    push_bytes(&mut location, id.as_slice());
    push_str_bytes(buf, location.as_slice());
    assert(buf@ =~= names + controller_labels(config, version@));
    let ghost labels = buf@;
    push_u16(buf, config.effects.len() as u16);
    push_i32(buf, active_mode);
    assert(buf@ =~= start + controller_header(config, version@, protocol_version, active_mode));
}

fn push_mode_records(buf: &mut Vec<u8>, config: &Config, state: &KeyboardState, protocol_version: u32)
    ensures
        final(buf)@ == old(buf)@ + mode_records(config.effects@, config, state, protocol_version),
{
    let ghost start = buf@;
    let mut i: usize = 0;
    while i < config.effects.len()
        invariant
            i <= config.effects.len(),
            buf@ == start + mode_records(config.effects@.take(i as int), config, state, protocol_version),
        decreases config.effects.len() - i,
    {
        assert(config.effects@.take(i + 1).drop_last() =~= config.effects@.take(i as int));
        push_mode_record(buf, &config.effects[i], config, state, protocol_version);
        i = i + 1;
        assert(buf@ =~= start + mode_records(config.effects@.take(i as int), config, state, protocol_version));
    }
    assert(config.effects@.take(i as int) =~= config.effects@);
}

/// The matrix cell of an LED: its row times the number of columns, plus its column.
pub open spec fn led_cell(led: Led, cols: u32) -> int {
    led.1.0 * cols + led.1.1
}

/// The LED matrix: every cell starts as `0xFFFFFFFF` (no LED), then each LED in turn writes
/// its index into its cell.
pub open spec fn led_matrix(leds: Seq<Led>, cols: u32, size: nat) -> Seq<u32>
    decreases leds.len(),
{
    if leds.len() == 0 {
        Seq::new(size, |i: int| 0xFFFF_FFFFu32)
    } else {
        led_matrix(leds.drop_last(), cols, size).update(
            led_cell(leds.last(), cols),
            leds.last().0 as u32,
        )
    }
}

/// The switch matrix is small enough for its byte size to fit in 32 bits, and every LED
/// lies inside it.
pub open spec fn matrix_holds_leds(config: &Config) -> bool {
    &&& config.matrix.0 * config.matrix.1 * 4 + 8 <= u32::MAX
    &&& forall|i: int|
        0 <= i < config.leds@.len() ==> led_cell(#[trigger] config.leds@[i], config.matrix.0)
            < config.matrix.0 * config.matrix.1
}

/// The zone of a controller: one matrix zone named `Keyboard` with all LEDs, and its map
/// from matrix cells to LED indices.
pub open spec fn zone_section(config: &Config, led_count: u32) -> Seq<u8> {
    let (cols, rows) = config.matrix;
    le_u16(1) + str_field(encode_utf8("Keyboard"@)) + le_u32(ZONE_TYPE_MATRIX) + le_u32(led_count)
        + le_u32(led_count) + le_u32(led_count) + le_u16((cols * rows * 4 + 8) as u16) + le_u32(rows)
        + le_u32(cols) + u32s_bytes(led_matrix(config.leds@, cols, (cols * rows) as nat))
}

fn push_zone(buf: &mut Vec<u8>, config: &Config, led_count: u32)
    requires
        matrix_holds_leds(config),
    ensures
        final(buf)@ == old(buf)@ + zone_section(config, led_count),
{
    let ghost start = buf@;
    let cols: u32 = config.matrix.0;
    let rows: u32 = config.matrix.1;
    push_u16(buf, 1);
    buf.extend_from_str("Keyboard");
    push_u32(buf, ZONE_TYPE_MATRIX);
    push_u32(buf, led_count);
    push_u32(buf, led_count);
    push_u32(buf, led_count);
    let ghost counts = buf@;
    assert(cols * rows <= cols * rows * 4) by (nonlinear_arith);
    let size: u32 = cols * rows;
    let matrix_data_size: u32 = size * 4 + 8;
    push_u16(buf, matrix_data_size as u16);
    push_u32(buf, rows);
    push_u32(buf, cols);
    let ghost dims = buf@;
    let mut matrix: Vec<u32> = vec![0xFFFF_FFFFu32; size as usize];
    assert(matrix@ =~= led_matrix(config.leds@.take(0), cols, size as nat));
    let mut i: usize = 0;
    while i < config.leds.len()
        invariant
            i <= config.leds.len(),
            cols == config.matrix.0,
            rows == config.matrix.1,
            size == cols * rows,
            matrix_holds_leds(config),
            matrix@ == led_matrix(config.leds@.take(i as int), cols, size as nat),
            matrix@.len() == size,
        decreases config.leds.len() - i,
    {
        let (led, (row, col)) = config.leds[i];
        assert(led_cell(config.leds@[i as int], cols) < size);
        assert(row * cols <= row * cols + col);
        let cell: usize = row as usize * cols as usize + col as usize;
        assert(config.leds@.take(i + 1).drop_last() =~= config.leds@.take(i as int));
        matrix.set(cell, led as u32);
        i = i + 1;
    }
    assert(config.leds@.take(i as int) =~= config.leds@);
    buf.extend_from_u32s(matrix.as_slice());
    assert(buf@ =~= start + zone_section(config, led_count));
}

/// Every LED's matrix cell lies inside a keymap of `keymap_len` entries.
pub open spec fn keymap_covers_leds(config: &Config, keymap_len: int) -> bool {
    forall|i: int|
        0 <= i < config.leds@.len() ==> led_cell(#[trigger] config.leds@[i], config.matrix.0)
            < keymap_len
}

/// The keycode under each LED: the keymap entry at the LED's matrix cell, LED by LED.
pub fn led_scancodes(config: &Config, keymap: &Vec<u16>) -> (scancodes: Vec<u16>)
    requires
        keymap_covers_leds(config, keymap@.len() as int),
    ensures
        scancodes@.len() == config.leds@.len(),
        forall|i: int|
            0 <= i < config.leds@.len() ==> scancodes@[i] == keymap@[led_cell(
                #[trigger] config.leds@[i],
                config.matrix.0,
            )],
{
    let cols: u32 = config.matrix.0;
    let mut scancodes: Vec<u16> = Vec::new();
    let mut i: usize = 0;
    while i < config.leds.len()
        invariant
            i <= config.leds.len(),
            cols == config.matrix.0,
            keymap_covers_leds(config, keymap@.len() as int),
            scancodes@.len() == i,
            forall|j: int|
                0 <= j < i ==> scancodes@[j] == keymap@[led_cell(#[trigger] config.leds@[j], cols)],
        decreases config.leds.len() - i,
    {
        let (_, (row, col)) = config.leds[i];
        assert(keymap@.len() == keymap.len());
        assert(led_cell(config.leds@[i as int], cols) < keymap@.len());
        assert(row * cols <= row * cols + col);
        let cell: usize = row as usize * cols as usize + col as usize;
        scancodes.push(keymap[cell]);
        i = i + 1;
    }
    scancodes
}

/// The names of the LEDs, `Key: <name>`, each followed by the LED's index.
pub open spec fn led_name_records(leds: Seq<Led>, names: Seq<String>) -> Seq<u8>
    decreases leds.len(),
{
    if leds.len() == 0 {
        Seq::empty()
    } else {
        led_name_records(leds.drop_last(), names.drop_last()) + str_field(
            encode_utf8("Key: "@) + encode_utf8(names.last()@),
        ) + le_u32(leds.last().0 as u32)
    }
}

fn push_led_names(buf: &mut Vec<u8>, leds: &Vec<Led>, names: &Vec<String>)
    requires
        names.len() == leds.len(),
    ensures
        final(buf)@ == old(buf)@ + led_name_records(leds@, names@),
{
    let ghost start = buf@;
    let mut i: usize = 0;
    while i < leds.len()
        invariant
            i <= leds.len(),
            names.len() == leds.len(),
            buf@ == start + led_name_records(leds@.take(i as int), names@.take(i as int)),
        decreases leds.len() - i,
    {
        assert(leds@.take(i + 1).drop_last() =~= leds@.take(i as int));
        assert(names@.take(i + 1).drop_last() =~= names@.take(i as int));
        let mut label: Vec<u8> = Vec::new();
        push_bytes(&mut label, "Key: ".as_bytes());
        push_bytes(&mut label, names[i].as_str().as_bytes());
        push_str_bytes(buf, label.as_slice());
        push_u32(buf, leds[i].0 as u32);
        i = i + 1;
        assert(buf@ =~= start + led_name_records(leds@.take(i as int), names@.take(i as int)));
    }
    assert(leds@.take(i as int) =~= leds@);
    assert(names@.take(i as int) =~= names@);
}

/// Colours on the wire, one after the other.
pub open spec fn color_records(colors: Seq<Color>) -> Seq<u8>
    decreases colors.len(),
{
    if colors.len() == 0 {
        Seq::empty()
    } else {
        color_records(colors.drop_last()) + color_bytes(colors.last())
    }
}

fn push_colors(buf: &mut Vec<u8>, colors: &Vec<Color>)
    ensures
        final(buf)@ == old(buf)@ + color_records(colors@),
{
    let ghost start = buf@;
    let mut i: usize = 0;
    while i < colors.len()
        invariant
            i <= colors.len(),
            buf@ == start + color_records(colors@.take(i as int)),
        decreases colors.len() - i,
    {
        assert(colors@.take(i + 1).drop_last() =~= colors@.take(i as int));
        buf.extend_from_color(&colors[i]);
        i = i + 1;
        assert(buf@ =~= start + color_records(colors@.take(i as int)));
    }
    assert(colors@.take(i as int) =~= colors@);
}

/// The index of the active mode: the position of the current effect, or 0.
pub open spec fn active_mode(config: &Config, effect: u8) -> i32 {
    (match mode_index_of(config.effects@, effect as i32) {
        Some(i) => i,
        None => 0usize,
    }) as i32
}

/// A controller description after its length: header, modes, zone, LED names and colours.
pub open spec fn controller_body(
    config: &Config,
    state: &KeyboardState,
    version: Seq<u8>,
    protocol_version: u32,
    key_names: Seq<String>,
) -> Seq<u8> {
    let count = led_count(config.leds@);
    controller_header(config, version, protocol_version, active_mode(config, state.effect))
        + mode_records(config.effects@, config, state, protocol_version) + zone_section(
        config,
        count,
    ) + le_u16(count as u16) + led_name_records(config.leds@, key_names) + le_u16(count as u16)
        + color_records(state.colors@)
}

/// A controller description: its whole length as 32 bits, then its body.
pub open spec fn controller_description(
    config: &Config,
    state: &KeyboardState,
    version: Seq<u8>,
    protocol_version: u32,
    key_names: Seq<String>,
) -> Seq<u8> {
    let body = controller_body(config, state, version, protocol_version, key_names);
    le_u32((body.len() + 4) as u32) + body
}

/// The description of a keyboard that answers a controller data request: its names, its
/// modes, its LED matrix, the names of its LEDs (`key_names`, one per LED) and their colours.
#[verifier::spinoff_prover]
#[verifier::rlimit(60)]
pub fn controller_data(
    config: &Config,
    state: &KeyboardState,
    version: &str,
    protocol_version: u32,
    key_names: &Vec<String>,
) -> (data: Vec<u8>)
    requires
        matrix_holds_leds(config),
        key_names.len() == config.leds.len(),
    ensures
        data@ == controller_description(
            config,
            state,
            version.spec_bytes(),
            protocol_version,
            key_names@,
        ),
{
    let mut buffer: Vec<u8> = Vec::new();
    push_u32(&mut buffer, 0);
    let ghost opening = buffer@;
    let current_effect: i32 = state.effect as i32;
    let active: i32 = match config.get_mode_index(current_effect) {
        Some(i) => i,
        None => 0,
    } as i32;
    push_controller_header(&mut buffer, config, version.as_bytes(), protocol_version, active);
    push_mode_records(&mut buffer, config, state, protocol_version);
    let count: u32 = config.count_leds();
    push_zone(&mut buffer, config, count);
    push_u16(&mut buffer, count as u16);
    push_led_names(&mut buffer, &config.leds, key_names);
    push_u16(&mut buffer, count as u16);
    push_colors(&mut buffer, &state.colors);
    let ghost body = controller_body(
        config,
        state,
        version.spec_bytes(),
        protocol_version,
        key_names@,
    );
    assert(buffer@ =~= opening + body);
    let length: u32 = buffer.len() as u32;
    buffer.set(0, (length & 0xff) as u8);
    buffer.set(1, ((length >> 8) & 0xff) as u8);
    buffer.set(2, ((length >> 16) & 0xff) as u8);
    buffer.set(3, (length >> 24) as u8);
    assert(buffer@ =~= le_u32((body.len() + 4) as u32) + body);
    buffer
}

/// Where a request goes: requests about the server itself, requests about one keyboard,
/// and the two ways a request fails.
#[derive(Clone, Copy, Debug, PartialEq, Eq, Structural)]
pub enum Route {
    /// A request about the server itself.
    Server(Request),
    /// A request about the keyboard at the given position.
    Device(Request, usize),
    /// The request names no connected keyboard.
    UnknownDevice,
    /// The request id names no request.
    UnknownRequest,
}

/// The requests about the server itself, answered whatever device they name.
pub open spec fn is_server_request(request: Request) -> bool {
    request == Request::GetProtocolVersion || request == Request::GetControllerCount || request
        == Request::SetClientName
}

/// Where the request with id `request_id` for device `device` goes, with `device_count`
/// keyboards connected. A server request never looks at the device; any other request
/// first needs a connected keyboard, and only then an id that names a request.
pub open spec fn route_of(id: u32, device: u32, device_count: usize) -> Route {
    if exists|r: Request| request_id(r) == id {
        let r = choose|r: Request| request_id(r) == id;
        if is_server_request(r) {
            Route::Server(r)
        } else if (device as usize) < device_count {
            Route::Device(r, device as usize)
        } else {
            Route::UnknownDevice
        }
    } else if (device as usize) < device_count {
        Route::UnknownRequest
    } else {
        Route::UnknownDevice
    }
}

/// Routes the request with id `request_id` for device `device`.
pub fn route(request_id: u32, device: u32, device_count: usize) -> (route: Route)
    ensures
        route == route_of(request_id, device, device_count),
{
    let index: usize = device as usize;
    match Request::from_id(request_id) {
        Some(request) => {
            proof {
                crate::consts::lemma_request_id_roundtrip(request);
            }
            match request {
                Request::GetProtocolVersion | Request::GetControllerCount
                | Request::SetClientName => Route::Server(request),
                _ => if index < device_count {
                    Route::Device(request, index)
                } else {
                    Route::UnknownDevice
                },
            }
        },
        None => if index < device_count {
            Route::UnknownRequest
        } else {
            Route::UnknownDevice
        },
    }
}

/// The protocol version agreed with a client: the client's, but no higher than the server's.
pub fn negotiate_version(client_version: u32) -> (version: u32)
    ensures
        version == (if client_version < OPENRGB_PROTOCOL_VERSION {
            client_version
        } else {
            OPENRGB_PROTOCOL_VERSION
        }),
        version <= OPENRGB_PROTOCOL_VERSION,
{
    if client_version < OPENRGB_PROTOCOL_VERSION {
        client_version
    } else {
        OPENRGB_PROTOCOL_VERSION
    }
}

/// The answer to a controller count request: the count as 32 bits.
pub fn controller_count_data(count: usize) -> (data: Vec<u8>)
    ensures
        data@ == le_u32(count as u32),
{
    let mut data: Vec<u8> = Vec::new();
    push_u32(&mut data, count as u32);
    data
}

/// The answer to a protocol version request: the server's version as 32 bits.
pub fn protocol_version_data() -> (data: Vec<u8>)
    ensures
        data@ == le_u32(OPENRGB_PROTOCOL_VERSION),
{
    let mut data: Vec<u8> = Vec::new();
    push_u32(&mut data, OPENRGB_PROTOCOL_VERSION);
    data
}

/// The length of the mode data after the fixed part of a mode update, or `None` where the
/// declared length (the packet length where that is 0) is below 10.
pub open spec fn mode_payload_of(data_length: u32, packet_length: u32) -> Option<usize> {
    let declared = if data_length == 0 {
        packet_length
    } else {
        data_length
    };
    if declared < 10 {
        None
    } else {
        Some((declared - 10) as usize)
    }
}

/// The length of the mode data that follows the fixed part of a mode update: the declared
/// length (the packet length where that is 0) less the 10 bytes already read; `None`
/// where the length is below 10, which makes the update invalid.
pub fn mode_payload_length(data_length: u32, packet_length: u32) -> (length: Option<usize>)
    ensures
        length == mode_payload_of(data_length, packet_length),
{
    let declared: u32 = if data_length == 0 {
        packet_length
    } else {
        data_length
    };
    if declared < 10 {
        None
    } else {
        Some((declared - 10) as usize)
    }
}

/// What a mode update sets besides the effect.
#[derive(Clone, Copy, Debug, PartialEq, Eq, Structural)]
pub struct ModeUpdate {
    pub speed: u8,
    pub brightness: Option<u8>,
    pub color: Option<Color>,
}

/// Where the speed, the brightness and the colour count lie in the mode data, after a mode
/// name of `name_length` bytes; brightness is sent from protocol version 3 on.
pub open spec fn mode_offsets(name_length: u16, protocol_version: u32) -> (int, Option<int>, int) {
    if protocol_version >= 3 {
        (name_length + 32, Some(name_length + 36), name_length + 48)
    } else {
        (name_length + 24, None, name_length + 36)
    }
}

/// The mode data holds every field that the update reads: the speed, the brightness (where
/// sent), the colour count and, where that count is not 0, the first colour.
pub open spec fn mode_data_is_complete(data: Seq<u8>, name_length: u16, protocol_version: u32) -> bool {
    let (speed, brightness, colors) = mode_offsets(name_length, protocol_version);
    &&& speed + 4 <= data.len()
    &&& (brightness matches Some(b) ==> b + 4 <= data.len())
    &&& colors + 2 <= data.len()
    &&& (crate::utils::u16_from_le(data.subrange(colors, colors + 2)) > 0 ==> colors + 5 <= data.len())
}

/// The settings that the mode data of an update sets.
pub open spec fn mode_update_of(data: Seq<u8>, name_length: u16, protocol_version: u32) -> ModeUpdate {
    let (speed, brightness, colors) = mode_offsets(name_length, protocol_version);
    ModeUpdate {
        speed: crate::utils::u32_from_le(data.subrange(speed, speed + 4)) as u8,
        brightness: match brightness {
            Some(b) => Some(crate::utils::u32_from_le(data.subrange(b, b + 4)) as u8),
            None => None,
        },
        color: if crate::utils::u16_from_le(data.subrange(colors, colors + 2)) > 0 {
            Some(Color { red: data[colors + 2], green: data[colors + 3], blue: data[colors + 4] })
        } else {
            None
        },
    }
}

/// Whether the mode data of an update holds every field that the update reads.
pub fn mode_data_complete(data: &Vec<u8>, name_length: u16, protocol_version: u32) -> (complete: bool)
    ensures
        complete == mode_data_is_complete(data@, name_length, protocol_version),
{
    let n: usize = name_length as usize;
    let (speed, brightness, colors) = if protocol_version >= 3 {
        (n + 32, Some(n + 36), n + 48)
    } else {
        (n + 24, None, n + 36)
    };
    if data.len() < speed + 4 || data.len() < colors + 2 {
        return false;
    }
    if let Some(b) = brightness {
        if data.len() < b + 4 {
            return false;
        }
    }
    if data.read_u16_le(colors) > 0 && data.len() < colors + 5 {
        return false;
    }
    true
}

/// Reads the settings from the mode data of an update.
pub fn decode_mode_update(data: &Vec<u8>, name_length: u16, protocol_version: u32) -> (update: ModeUpdate)
    requires
        mode_data_is_complete(data@, name_length, protocol_version),
    ensures
        update == mode_update_of(data@, name_length, protocol_version),
{
    let n: usize = name_length as usize;
    let (speed_offset, brightness_offset, colors_offset) = if protocol_version >= 3 {
        (n + 32, Some(n + 36), n + 48)
    } else {
        (n + 24, None, n + 36)
    };
    let speed: u8 = data.read_u32_le(speed_offset) as u8;
    let brightness = match brightness_offset {
        Some(offset) => Some(data.read_u32_le(offset) as u8),
        None => None,
    };
    let color = if data.read_u16_le(colors_offset) > 0 {
        Some(data.read_rgb(colors_offset + 2))
    } else {
        None
    };
    ModeUpdate { speed, brightness, color }
}

/// The effect that a mode update selects.
pub open spec fn mode_effect_of(config: &Config, mode_index: i32) -> u8 {
    if (mode_index as usize) < config.effects@.len() {
        config.effects@[(mode_index as usize) as int].1 as u8
    } else {
        0u8
    }
}

/// The effect that a mode update selects: the effect id of the mode at `mode_index` (a
/// negative index read as `usize`, as a cast gives it), or effect 0 where there is no
/// such mode.
pub fn mode_effect(config: &Config, mode_index: i32) -> (effect: u8)
    ensures
        effect == mode_effect_of(config, mode_index),
{
    let id: i32 = match config.get_effect_id(mode_index as usize) {
        Some(id) => id,
        None => 0,
    };
    id as u8
}

/// The effect that the custom (direct) mode request selects: the first effect with
/// per-LED colours, if there is one.
pub fn custom_mode_effect(config: &Config) -> (effect: Option<u8>)
    ensures
        match effect {
            Some(e) => exists|i: int|
                0 <= i < config.effects@.len() && config.effects@[i].2
                    & MODE_FLAG_HAS_PER_LED_COLOR != 0 && e == config.effects@[i].1 as u8 && forall|j: int|
                    0 <= j < i ==> config.effects@[j].2 & MODE_FLAG_HAS_PER_LED_COLOR == 0,
            None => forall|i: int|
                0 <= i < config.effects@.len() ==> config.effects@[i].2
                    & MODE_FLAG_HAS_PER_LED_COLOR == 0,
        },
{
    let mut i: usize = 0;
    while i < config.effects.len()
        invariant
            i <= config.effects.len(),
            forall|j: int|
                0 <= j < i ==> config.effects@[j].2 & MODE_FLAG_HAS_PER_LED_COLOR == 0,
        decreases config.effects.len() - i,
    {
        if config.effects[i].2 & MODE_FLAG_HAS_PER_LED_COLOR != 0 {
            return Some(config.effects[i].1 as u8);
        }
        i = i + 1;
    }
    None
}

/// The names of the profiles on the wire: their number as 16 bits, then each name.
pub open spec fn profile_records(profiles: Seq<String>) -> Seq<u8>
    decreases profiles.len(),
{
    if profiles.len() == 0 {
        Seq::empty()
    } else {
        profile_records(profiles.drop_last()) + str_field(encode_utf8(profiles.last()@))
    }
}

/// The answer to a profile list request: its whole length as 32 bits, the number of
/// profiles as 16 bits, then each profile name.
pub open spec fn profile_list(profiles: Seq<String>) -> Seq<u8> {
    let body = le_u16(profiles.len() as u16) + profile_records(profiles);
    le_u32((body.len() + 4) as u32) + body
}

/// The answer to a profile list request.
pub fn profile_list_data(profiles: &Vec<String>) -> (data: Vec<u8>)
    ensures
        data@ == profile_list(profiles@),
{
    let mut buffer: Vec<u8> = Vec::new();
    push_u32(&mut buffer, 0);
    let ghost opening = buffer@;
    push_u16(&mut buffer, profiles.len() as u16);
    let ghost counted = buffer@;
    let mut i: usize = 0;
    while i < profiles.len()
        invariant
            i <= profiles.len(),
            buffer@ == counted + profile_records(profiles@.take(i as int)),
        decreases profiles.len() - i,
    {
        assert(profiles@.take(i + 1).drop_last() =~= profiles@.take(i as int));
        buffer.extend_from_str(profiles[i].as_str());
        i = i + 1;
        assert(buffer@ =~= counted + profile_records(profiles@.take(i as int)));
    }
    assert(profiles@.take(i as int) =~= profiles@);
    let ghost body = le_u16(profiles@.len() as u16) + profile_records(profiles@);
    assert(buffer@ =~= opening + body);
    let length: u32 = buffer.len() as u32;
    buffer.set(0, (length & 0xff) as u8);
    buffer.set(1, ((length >> 8) & 0xff) as u8);
    buffer.set(2, ((length >> 16) & 0xff) as u8);
    buffer.set(3, (length >> 24) as u8);
    assert(buffer@ =~= le_u32((body.len() + 4) as u32) + body);
    buffer
}

/// The profile that a file in the profile directory holds: its name without `.json`, for
/// files whose name ends in `.json`.
pub fn profile_name(file_name: &str) -> (name: Option<&str>)
    ensures
        match name {
            Some(n) => file_name@ == n@ + ".json"@,
            None => !(".json"@.is_suffix_of(file_name@)),
        },
{
    let chars = chars_of(file_name);
    let suffix = chars_of(".json");
    if chars.len() < suffix.len() {
        return None;
    }
    let stem_len: usize = chars.len() - suffix.len();
    let mut i: usize = 0;
    while i < suffix.len()
        invariant
            chars@ == file_name@,
            suffix@ == ".json"@,
            stem_len + suffix.len() == chars.len(),
            i <= suffix.len(),
            forall|j: int| 0 <= j < i ==> chars@[stem_len + j] == suffix@[j],
        decreases suffix.len() - i,
    {
        if chars[stem_len + i] != suffix[i] {
            assert(file_name@.subrange(stem_len as int, file_name@.len() as int)[i as int]
                != ".json"@[i as int]);
            return None;
        }
        i = i + 1;
    }
    assert(".json"@ =~= file_name@.subrange(stem_len as int, file_name@.len() as int));
    let stem = file_name.substring_char(0, stem_len);
    assert(file_name@ =~= stem@ + ".json"@);
    Some(stem)
}

/// In the LED matrix of a controller description, a cell where no LED lies holds
/// `0xFFFFFFFF`, and the cell of an LED holds that LED's index unless a later LED lies in the
/// same cell.
pub proof fn lemma_led_matrix(leds: Seq<Led>, cols: u32, size: nat, cell: int)
    requires
        forall|i: int| 0 <= i < leds.len() ==> 0 <= led_cell(#[trigger] leds[i], cols) < size,
        0 <= cell < size,
    ensures
        led_matrix(leds, cols, size).len() == size,
        (forall|i: int| 0 <= i < leds.len() ==> led_cell(#[trigger] leds[i], cols) != cell)
            ==> led_matrix(leds, cols, size)[cell] == 0xFFFF_FFFFu32,
        forall|i: int|
            0 <= i < leds.len() && led_cell(#[trigger] leds[i], cols) == cell && (forall|j: int|
                i < j < leds.len() ==> led_cell(#[trigger] leds[j], cols) != cell)
                ==> led_matrix(leds, cols, size)[cell] == leds[i].0 as u32,
    decreases leds.len(),
{
    if leds.len() > 0 {
        let rest = leds.drop_last();
        assert forall|i: int| 0 <= i < rest.len() implies 0 <= led_cell(#[trigger] rest[i], cols)
            < size by {
            assert(rest[i] == leds[i]);
        }
        lemma_led_matrix(rest, cols, size, cell);
        let last = leds.len() - 1;
        assert(leds.last() == leds[last]);
        assert forall|i: int|
            0 <= i < leds.len() && led_cell(#[trigger] leds[i], cols) == cell && (forall|j: int|
                i < j < leds.len() ==> led_cell(#[trigger] leds[j], cols) != cell) implies led_matrix(
            leds,
            cols,
            size,
        )[cell] == leds[i].0 as u32 by {
            if i < last {
                assert(led_cell(leds[last], cols) != cell);
                assert(rest[i] == leds[i]);
                assert forall|j: int| i < j < rest.len() implies led_cell(#[trigger] rest[j], cols)
                    != cell by {
                    assert(rest[j] == leds[j]);
                }
            }
        }
        if forall|i: int| 0 <= i < leds.len() ==> led_cell(#[trigger] leds[i], cols) != cell {
            assert forall|i: int| 0 <= i < rest.len() implies led_cell(#[trigger] rest[i], cols)
                != cell by {
                assert(rest[i] == leds[i]);
            }
            assert(led_cell(leds[last], cols) != cell);
        }
    }
}

/// A controller description opens with its own length, read back as written where that
/// fits in 32 bits.
pub proof fn lemma_controller_description_length(
    config: &Config,
    state: &KeyboardState,
    version: Seq<u8>,
    protocol_version: u32,
    key_names: Seq<String>,
)
    ensures
        ({
            let d = controller_description(config, state, version, protocol_version, key_names);
            u32_from_le(d.subrange(0, 4)) == d.len() as u32
        }),
{
    let body = controller_body(config, state, version, protocol_version, key_names);
    let d = controller_description(config, state, version, protocol_version, key_names);
    lemma_u32_roundtrip((body.len() + 4) as u32);
    assert(d.subrange(0, 4) =~= le_u32((body.len() + 4) as u32));
}

/// A profile list opens with its own length, read back as written where that fits in 32
/// bits.
pub proof fn lemma_profile_list_length(profiles: Seq<String>)
    ensures
        u32_from_le(profile_list(profiles).subrange(0, 4)) == profile_list(profiles).len() as u32,
{
    let body = le_u16(profiles.len() as u16) + profile_records(profiles);
    lemma_u32_roundtrip((body.len() + 4) as u32);
    assert(profile_list(profiles).subrange(0, 4) =~= le_u32((body.len() + 4) as u32));
}

/// The characters of ASCII bytes.
pub open spec fn ascii_chars(bytes: Seq<u8>) -> Seq<char> {
    bytes.map_values(|b: u8| b as char)
}

proof fn lemma_hex_digit_value(n: u16)
    requires
        n < 16,
    ensures
        crate::text::digit_value(hex_digit(n) as char, 16) == Some(n as nat),
{
}

/// A USB id as the controller description spells it (four lowercase hexadecimal digits)
/// reads back, as a hexadecimal id of a keyboard definition, as the id.
pub proof fn lemma_hex4_reads_back(v: u16)
    ensures
        hex_id_value(ascii_chars(hex4(v))) == v,
{
    let n0 = (v >> 12) & 0xf;
    let n1 = (v >> 8) & 0xf;
    let n2 = (v >> 4) & 0xf;
    let n3 = v & 0xf;
    assert(n0 < 16 && n1 < 16 && n2 < 16 && n3 < 16) by (bit_vector)
        requires
            n0 == (v >> 12) & 0xf,
            n1 == (v >> 8) & 0xf,
            n2 == (v >> 4) & 0xf,
            n3 == v & 0xf,
    ;
    assert(v == n0 * 4096 + n1 * 256 + n2 * 16 + n3) by (bit_vector)
        requires
            n0 == (v >> 12) & 0xf,
            n1 == (v >> 8) & 0xf,
            n2 == (v >> 4) & 0xf,
            n3 == v & 0xf,
    ;
    lemma_hex_digit_value(n0);
    lemma_hex_digit_value(n1);
    lemma_hex_digit_value(n2);
    lemma_hex_digit_value(n3);
    let s = ascii_chars(hex4(v));
    assert(s.len() == 4);
    assert(s[1] != 'x');
    assert(crate::config::strip_hex_prefixes(s) == s);
    assert(s.drop_last().drop_last().drop_last().drop_last() =~= Seq::<char>::empty());
    assert(s.drop_last().drop_last().drop_last() =~= seq![s[0]]);
    assert(s.drop_last().drop_last() =~= seq![s[0], s[1]]);
    assert(s.drop_last() =~= seq![s[0], s[1], s[2]]);
    reveal_with_fuel(crate::text::digits_value, 5);
    assert(crate::text::digits_value(s, 16) == Some((((n0 * 16 + n1) * 16 + n2) * 16 + n3) as nat));
}


/// What a client connection remembers: the protocol version agreed with the client and the
/// client's name, once it has given one.
#[derive(Debug)]
pub struct Session {
    pub protocol_version: u32,
    pub client: Option<String>,
}

/// A request that changes the session, with what was read for it.
#[derive(Debug)]
pub enum SessionEvent {
    /// A protocol version request with the client's version.
    ProtocolVersion(u32),
    /// A client name request with the name.
    ClientName(String),
    /// A controller data request with the client's version, which the client sends only
    /// where the packet length is not 0.
    ControllerData(Option<u32>),
}

/// What the server does for a session event, besides changing the session.
#[derive(Debug)]
pub enum SessionAction {
    /// Send this payload in answer.
    Reply(Vec<u8>),
    /// Report that a client has connected (the first name it gives).
    AnnounceClient,
    /// Nothing more.
    Nothing,
}

/// The protocol version agreed with a client that offers `client_version`.
pub open spec fn agreed_version(client_version: u32) -> u32 {
    if client_version < OPENRGB_PROTOCOL_VERSION {
        client_version
    } else {
        OPENRGB_PROTOCOL_VERSION
    }
}

/// The session after an event: a protocol version request agrees on a version; a
/// controller data request agrees on one too and, where it carries no version, sets it to
/// 0 whatever was agreed before; a client name request records the name.
pub open spec fn next_session_version(version: u32, event: &SessionEvent) -> u32 {
    match event {
        SessionEvent::ProtocolVersion(v) => agreed_version(*v),
        SessionEvent::ControllerData(Some(v)) => agreed_version(*v),
        SessionEvent::ControllerData(None) => 0,
        SessionEvent::ClientName(_) => version,
    }
}

/// Handles a session event: the next session and what to do besides.
pub fn session_step(session: Session, event: SessionEvent) -> (step: (Session, SessionAction))
    ensures
        step.0.protocol_version == next_session_version(session.protocol_version, &event),
        match event {
            SessionEvent::ClientName(name) => step.0.client == Some(name) && (match step.1 {
                SessionAction::AnnounceClient => session.client is None,
                SessionAction::Nothing => session.client is Some,
                SessionAction::Reply(_) => false,
            }),
            SessionEvent::ProtocolVersion(_) => step.0.client == session.client && (match step.1 {
                SessionAction::Reply(data) => data@ == le_u32(OPENRGB_PROTOCOL_VERSION),
                _ => false,
            }),
            SessionEvent::ControllerData(_) => step.0.client == session.client
                && step.1 is Nothing,
        },
{
    let Session { protocol_version, client } = session;
    match event {
        SessionEvent::ProtocolVersion(v) => (
            Session { protocol_version: negotiate_version(v), client },
            SessionAction::Reply(protocol_version_data()),
        ),
        SessionEvent::ClientName(name) => {
            let first_time = client.is_none();
            (
                Session { protocol_version, client: Some(name) },
                if first_time {
                    SessionAction::AnnounceClient
                } else {
                    SessionAction::Nothing
                },
            )
        },
        SessionEvent::ControllerData(version) => {
            let agreed: u32 = match version {
                Some(v) => negotiate_version(v),
                None => 0,
            };
            (Session { protocol_version: agreed, client }, SessionAction::Nothing)
        },
    }
}

/// A change that a request makes to a keyboard.
#[derive(Clone, Copy, Debug, PartialEq, Eq, Structural)]
pub enum KeyboardAction {
    SetEffect(u8),
    SetSpeed(u8),
    SetBrightness(u8),
    SetColor(Color),
    PersistState,
}

/// The first step of a mode update, once its fixed part is read: the effect is set, and
/// stays set whatever follows; then either the length of the mode data to read, or `None`
/// where the declared length is invalid, which fails the update with nothing else done.
pub fn mode_update_start(config: &Config, data_length: u32, packet_length: u32, mode_index: i32) -> (start: (KeyboardAction, Option<usize>))
    ensures
        start.0 == KeyboardAction::SetEffect(mode_effect_of(config, mode_index)),
        start.1 == mode_payload_of(data_length, packet_length),
{
    (KeyboardAction::SetEffect(mode_effect(config, mode_index)), mode_payload_length(data_length, packet_length))
}

/// The changes that the mode data of an update makes, in order: speed, brightness (where
/// sent), colour (where the colour count is not 0), and, for a save request only, saving
/// the state.
pub open spec fn mode_update_actions(save: bool, data: Seq<u8>, name_length: u16, protocol_version: u32) -> Seq<KeyboardAction> {
    let update = mode_update_of(data, name_length, protocol_version);
    seq![KeyboardAction::SetSpeed(update.speed)] + (match update.brightness {
        Some(b) => seq![KeyboardAction::SetBrightness(b)],
        None => Seq::empty(),
    }) + (match update.color {
        Some(c) => seq![KeyboardAction::SetColor(c)],
        None => Seq::empty(),
    }) + (if save {
        seq![KeyboardAction::PersistState]
    } else {
        Seq::empty()
    })
}

/// The second step of a mode update (`UpdateMode`) or mode save (`SaveMode`): the changes
/// that its mode data makes, in the order they are made.
pub fn mode_update_finish(request: Request, data: &Vec<u8>, name_length: u16, protocol_version: u32) -> (actions: Vec<KeyboardAction>)
    requires
        request == Request::UpdateMode || request == Request::SaveMode,
        mode_data_is_complete(data@, name_length, protocol_version),
    ensures
        actions@ == mode_update_actions(request == Request::SaveMode, data@, name_length, protocol_version),
{
    let update = decode_mode_update(data, name_length, protocol_version);
    let mut actions: Vec<KeyboardAction> = Vec::new();
    actions.push(KeyboardAction::SetSpeed(update.speed));
    if let Some(b) = update.brightness {
        actions.push(KeyboardAction::SetBrightness(b));
    }
    if let Some(c) = update.color {
        actions.push(KeyboardAction::SetColor(c));
    }
    let save = match request {
        Request::SaveMode => true,
        _ => false,
    };
    if save {
        actions.push(KeyboardAction::PersistState);
    }
    assert(actions@ =~= mode_update_actions(request == Request::SaveMode, data@, name_length, protocol_version));
    actions
}

/// The colour mode that a mode record reports, in the last ten bytes of the record: the
/// mode's colour mode, one mode colour, and that colour. Per-LED colours (1) where the
/// effect's flags have per-LED colour; otherwise mode colours (2) where they have a
/// mode-specific colour; otherwise random colours (3) where they have random colour;
/// otherwise none (0).
pub proof fn lemma_mode_record_colour_mode(
    effect: Effect,
    config: &Config,
    state: &KeyboardState,
    protocol_version: u32,
)
    ensures
        ({
            let record = mode_record(effect, config, state, protocol_version);
            let flags = effect.2;
            let ends_with = |mode: u32|
                record.len() >= 10 && record.skip(record.len() - 10) == le_u32(mode) + le_u16(1)
                    + color_bytes(state.color);
            &&& flags & MODE_FLAG_HAS_PER_LED_COLOR != 0 ==> ends_with(1)
            &&& flags & MODE_FLAG_HAS_PER_LED_COLOR == 0 && flags
                & MODE_FLAG_HAS_MODE_SPECIFIC_COLOR != 0 ==> ends_with(2)
            &&& flags & MODE_FLAG_HAS_PER_LED_COLOR == 0 && flags
                & MODE_FLAG_HAS_MODE_SPECIFIC_COLOR == 0 && flags & MODE_FLAG_HAS_RANDOM_COLOR
                != 0 ==> ends_with(3)
            &&& flags & MODE_FLAG_HAS_PER_LED_COLOR == 0 && flags
                & MODE_FLAG_HAS_MODE_SPECIFIC_COLOR == 0 && flags & MODE_FLAG_HAS_RANDOM_COLOR
                == 0 ==> ends_with(0)
        }),
{
    let record = mode_record(effect, config, state, protocol_version);
    let tail = le_u32(color_mode(effect.2)) + le_u16(1) + color_bytes(state.color);
    let head = mode_head(effect, config, protocol_version) + (le_u32(1) + le_u32(1) + le_u32(
        state.speed as u32,
    ) + (if protocol_version >= 3 {
        le_u32(state.brightness as u32)
    } else {
        Seq::empty()
    }) + le_u32(0));
    assert(record =~= head + tail);
    assert(record.skip(record.len() - 10) =~= tail);
}

/// A mode save makes exactly the changes of a mode update with the same data, colour
/// included, and then saves the state; a mode update never saves it.
pub proof fn lemma_save_is_update_then_persist(data: Seq<u8>, name_length: u16, protocol_version: u32)
    ensures
        mode_update_actions(true, data, name_length, protocol_version) == mode_update_actions(
            false,
            data,
            name_length,
            protocol_version,
        ).push(KeyboardAction::PersistState),
        !mode_update_actions(false, data, name_length, protocol_version).contains(
            KeyboardAction::PersistState,
        ),
{
    let update = mode_update_of(data, name_length, protocol_version);
    assert(mode_update_actions(true, data, name_length, protocol_version) =~= mode_update_actions(
        false,
        data,
        name_length,
        protocol_version,
    ).push(KeyboardAction::PersistState));
    let plain = mode_update_actions(false, data, name_length, protocol_version);
    assert forall|i: int| 0 <= i < plain.len() implies plain[i] != KeyboardAction::PersistState by {
        if i >= 1 {
            match update.brightness {
                Some(b) => if i >= 2 {
                    assert(update.color is Some);
                },
                None => assert(update.color is Some),
            }
        }
    }
}

/// What a mode update or save does, read off the mode data itself: after a mode name of
/// `name_length` bytes, the speed is the low byte of the 32-bit field at 24 (at 32 from
/// protocol version 3 on), the brightness, sent from protocol version 3 on, the low byte of
/// the field at 36, and where the 16-bit colour count at 36 (at 48 from protocol version 3
/// on) is not 0, the colour is the three bytes after the count. Speed is set first, then
/// brightness, then colour, for an update and a save alike; a save then saves the state.
pub proof fn lemma_mode_update_reads_data(data: Seq<u8>, name_length: u16, protocol_version: u32, save: bool)
    requires
        mode_data_is_complete(data, name_length, protocol_version),
    ensures
        ({
            let n = name_length as int;
            let speed_at = if protocol_version >= 3 { n + 32 } else { n + 24 };
            let count_at = if protocol_version >= 3 { n + 48 } else { n + 36 };
            let colours = data[count_at] as int + 256 * data[count_at + 1] as int;
            mode_update_actions(save, data, name_length, protocol_version) == seq![
                KeyboardAction::SetSpeed(data[speed_at]),
            ] + (if protocol_version >= 3 {
                seq![KeyboardAction::SetBrightness(data[n + 36])]
            } else {
                Seq::empty()
            }) + (if colours != 0 {
                seq![
                    KeyboardAction::SetColor(
                        Color {
                            red: data[count_at + 2],
                            green: data[count_at + 3],
                            blue: data[count_at + 4],
                        },
                    ),
                ]
            } else {
                Seq::empty()
            }) + (if save {
                seq![KeyboardAction::PersistState]
            } else {
                Seq::empty()
            })
        }),
{
    let n = name_length as int;
    let speed_at = if protocol_version >= 3 { n + 32 } else { n + 24 };
    let count_at = if protocol_version >= 3 { n + 48 } else { n + 36 };
    let speed = data.subrange(speed_at, speed_at + 4);
    lemma_low_byte(speed[0], speed[1], speed[2], speed[3]);
    if protocol_version >= 3 {
        let b = data.subrange(n + 36, n + 40);
        lemma_low_byte(b[0], b[1], b[2], b[3]);
    }
    let count = data.subrange(count_at, count_at + 2);
    lemma_u16_zero(count[0], count[1]);
}

proof fn lemma_low_byte(a: u8, b: u8, c: u8, d: u8)
    ensures
        ((a as u32) | ((b as u32) << 8) | ((c as u32) << 16) | ((d as u32) << 24)) as u8 == a,
{
    assert(((a as u32) | ((b as u32) << 8) | ((c as u32) << 16) | ((d as u32) << 24)) as u8 == a)
        by (bit_vector);
}

proof fn lemma_u16_zero(a: u8, b: u8)
    ensures
        (((a as u16) | ((b as u16) << 8)) as u16 > 0) == (a != 0 || b != 0),
{
    assert((((a as u16) | ((b as u16) << 8)) as u16 > 0) == (a != 0 || b != 0)) by (bit_vector);
}

/// A request goes by the id that its packet carries: a server request to the server,
/// whatever device it names; any other request, to the keyboard it names, as that same
/// request, where that keyboard is connected, and otherwise nowhere.
pub proof fn lemma_route_by_id(request: Request, device: u32, device_count: usize)
    ensures
        (request == Request::GetProtocolVersion || request == Request::GetControllerCount
            || request == Request::SetClientName) ==> route_of(request_id(request), device, device_count)
            == Route::Server(request),
        !(request == Request::GetProtocolVersion || request == Request::GetControllerCount
            || request == Request::SetClientName) && (device as usize) < device_count ==> route_of(
            request_id(request),
            device,
            device_count,
        ) == Route::Device(request, device as usize),
        !(request == Request::GetProtocolVersion || request == Request::GetControllerCount
            || request == Request::SetClientName) && (device as usize) >= device_count ==> route_of(
            request_id(request),
            device,
            device_count,
        ) == Route::UnknownDevice,
{
    crate::consts::lemma_request_id_roundtrip(request);
    assert(exists|r: Request| request_id(r) == request_id(request));
}

/// A packet id that names no request fails as an unknown request where the device it names
/// is connected, and as an unknown device otherwise.
pub proof fn lemma_route_unknown_id(id: u32, device: u32, device_count: usize)
    requires
        forall|r: Request| request_id(r) != id,
    ensures
        (device as usize) < device_count ==> route_of(id, device, device_count) == Route::UnknownRequest,
        (device as usize) >= device_count ==> route_of(id, device, device_count) == Route::UnknownDevice,
{
}

/// The protocol version agreed with a client never exceeds the server's: a request that
/// offers a version agrees on the lower of it and the server's, a controller data request
/// that offers none on 0, and a client name keeps the version agreed before.
pub proof fn lemma_session_version(version: u32, event: SessionEvent)
    requires
        version <= OPENRGB_PROTOCOL_VERSION,
    ensures
        next_session_version(version, &event) <= OPENRGB_PROTOCOL_VERSION,
        match event {
            SessionEvent::ProtocolVersion(v) => next_session_version(version, &event) <= v && (
            next_session_version(version, &event) == v || next_session_version(version, &event)
                == OPENRGB_PROTOCOL_VERSION),
            SessionEvent::ControllerData(Some(v)) => next_session_version(version, &event) <= v
                && (next_session_version(version, &event) == v || next_session_version(
                version,
                &event,
            ) == OPENRGB_PROTOCOL_VERSION),
            SessionEvent::ControllerData(None) => next_session_version(version, &event) == 0,
            SessionEvent::ClientName(_) => next_session_version(version, &event) == version,
        },
{
}

} // verus!
