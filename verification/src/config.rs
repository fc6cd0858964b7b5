//! Keyboard definitions: the parts of a VIA keyboard definition that the server uses,
//! and how they become a [`Config`]: LED positions, lighting effects and value ranges.

use vstd::prelude::*;
use itertools::Itertools;

use crate::condition::{
    evaluate_with_variable, expression_is_valid, expression_parses, expression_truth,
};
use crate::consts::{
    MODE_FLAG_HAS_BRIGHTNESS, MODE_FLAG_HAS_MODE_SPECIFIC_COLOR, MODE_FLAG_HAS_PER_LED_COLOR,
    MODE_FLAG_HAS_RANDOM_COLOR, MODE_FLAG_HAS_SPEED, MODE_FLAG_MANUAL_SAVE,
};
use crate::text::{
    chars_of, copy_range, decimal, field, is_decimal_char, lemma_decimal, lemma_parse_decimal,
    lemma_sep_index, nth_field, parse_unsigned, parse_unsigned_chars, same_text, trim,
    trimmed,
};

verus! {

/// A position in the switch matrix: row, then column.
pub type Position = (u8, u8);

/// An LED: its index, then its position in the switch matrix.
pub type Led = (u8, Position);

/// A range of values: the minimum, then the maximum.
pub type Range = (u32, u32);

/// A lighting effect: its name, its effect id, then its OpenRGB mode flags.
pub type Effect = (String, i32, u32);

/// What the server knows of a keyboard.
#[derive(Debug)]
pub struct Config {
    pub name: String,
    pub vendor: String,
    pub vendor_id: u16,
    pub product_id: u16,
    pub leds: Vec<Led>,
    pub effects: Vec<Effect>,
    pub speed: Range,
    pub brightness: Range,
    pub matrix: (u32, u32),
}

impl Clone for Config {
    fn clone(&self) -> (copy: Config)
        ensures
            copy.name@ == self.name@,
            copy.vendor@ == self.vendor@,
            copy.vendor_id == self.vendor_id,
            copy.product_id == self.product_id,
            copy.leds@ == self.leds@,
            copy.effects@.len() == self.effects@.len(),
            forall|i: int|
                0 <= i < self.effects@.len() ==> (#[trigger] copy.effects@[i]).0@
                    == self.effects@[i].0@ && copy.effects@[i].1 == self.effects@[i].1
                    && copy.effects@[i].2 == self.effects@[i].2,
            copy.speed == self.speed,
            copy.brightness == self.brightness,
            copy.matrix == self.matrix,
    {
        let mut leds: Vec<Led> = Vec::new();
        let mut i: usize = 0;
        while i < self.leds.len()
            invariant
                i <= self.leds.len(),
                leds@ == self.leds@.take(i as int),
            decreases self.leds.len() - i,
        {
            leds.push(self.leds[i]);
            i = i + 1;
            assert(leds@ =~= self.leds@.take(i as int));
        }
        assert(self.leds@.take(i as int) =~= self.leds@);
        let mut effects: Vec<Effect> = Vec::new();
        let mut k: usize = 0;
        while k < self.effects.len()
            invariant
                k <= self.effects.len(),
                effects@.len() == k,
                forall|j: int|
                    0 <= j < k ==> (#[trigger] effects@[j]).0@ == self.effects@[j].0@
                        && effects@[j].1 == self.effects@[j].1 && effects@[j].2
                        == self.effects@[j].2,
            decreases self.effects.len() - k,
        {
            let effect = &self.effects[k];
            effects.push((effect.0.clone(), effect.1, effect.2));
            k = k + 1;
        }
        Config {
            name: self.name.clone(),
            vendor: self.vendor.clone(),
            vendor_id: self.vendor_id,
            product_id: self.product_id,
            leds,
            effects,
            speed: self.speed,
            brightness: self.brightness,
            matrix: self.matrix,
        }
    }
}

/// A VIA keyboard definition, as far as the server reads it.
#[derive(Debug)]
pub struct KeyboardJson {
    pub name: String,
    pub vendor: Option<String>,
    pub vendor_id: String,
    pub product_id: String,
    pub matrix: MatrixDimensions,
    pub menus: Vec<Menu>,
    pub layouts: Layouts,
}

/// The size of the switch matrix.
#[derive(Debug)]
pub struct MatrixDimensions {
    pub rows: u32,
    pub cols: u32,
}

/// A menu of the definition.
#[derive(Debug)]
pub struct Menu {
    pub content: Vec<MenuContent>,
}

/// A section of a menu.
#[derive(Debug)]
pub struct MenuContent {
    pub content: Vec<MenuOption>,
}

/// A control of a menu section. `id` is the first entry of the control's `content` where
/// that entry is a string (the value id, such as `id_qmk_rgb_matrix_brightness`).
#[derive(Debug)]
#[allow(inconsistent_fields)]
pub enum MenuOption {
    Range { id: Option<String>, options: Range, show_if: Option<String> },
    Dropdown { id: Option<String>, options: Vec<IndexedOption> },
    Color { id: Option<String>, show_if: Option<String> },
    ColorPalette { id: Option<String>, show_if: Option<String> },
    Other,
}

/// An option of a dropdown: a name with an explicit value, or a name whose value is its index.
#[derive(Debug)]
pub enum IndexedOption {
    Explicit(String, i32),
    Implicit(String),
}

/// The layouts of the definition.
#[derive(Debug)]
pub struct Layouts {
    pub keymap: Vec<Vec<KeymapEntry>>,
}

/// An entry of a keymap row: a key legend, or anything else.
#[derive(Debug)]
pub enum KeymapEntry {
    Key(String),
    Other,
}

/// `s` begins with the character `c`.
pub open spec fn starts_with(s: Seq<char>, c: char) -> bool {
    s.len() > 0 && s[0] == c
}

/// A decimal number that fits in a byte (as `str::parse::<u8>` reads it).
pub open spec fn parse_u8(s: Seq<char>) -> Option<u8> {
    match parse_unsigned(s, 10, 255) {
        Some(v) => Some(v as u8),
        None => None,
    }
}

/// The first line of a key legend: `row,col`.
pub open spec fn legend_position(key: Seq<char>) -> Seq<char> {
    field(key, '\n', 0).unwrap()
}

/// The LED index that a key legend names on its second line (`l<index>`), unless the
/// legend marks the key as an encoder (its tenth line starts with `e`).
pub open spec fn legend_led(key: Seq<char>) -> Option<u8> {
    match field(key, '\n', 1) {
        Some(line) => if starts_with(line, 'l') {
            match parse_u8(line.drop_first()) {
                Some(led) => match field(key, '\n', 9) {
                    Some(marker) => if starts_with(marker, 'e') {
                        None
                    } else {
                        Some(led)
                    },
                    None => Some(led),
                },
                None => None,
            }
        } else {
            None
        },
        None => None,
    }
}

/// The LED that a key legend describes, if it describes one.
pub open spec fn led_of_key(key: Seq<char>) -> Option<Led> {
    let position = legend_position(key);
    match parse_u8(trim(field(position, ',', 0).unwrap())) {
        Some(row) => match parse_u8(trim(field(position, ',', 1).unwrap())) {
            Some(col) => match legend_led(key) {
                Some(led) => Some((led, (row, col))),
                None => None,
            },
            None => None,
        },
        None => None,
    }
}

/// A key legend can be read: where its row is a number, its first line has a column too.
pub open spec fn key_is_readable(key: Seq<char>) -> bool {
    let position = legend_position(key);
    parse_u8(trim(field(position, ',', 0).unwrap())) is Some ==> field(position, ',', 1) is Some
}

/// Reads the LED that a key legend describes.
pub fn extract_led(key: &String) -> (led: Option<Led>)
    requires
        key_is_readable(key@),
    ensures
        led == led_of_key(key@),
{
    let chars = chars_of(key.as_str());
    let position = match nth_field(&chars, '\n', 0) {
        Some(p) => p,
        None => {
            return None;
        },
    };
    let row_text = match nth_field(&position, ',', 0) {
        Some(r) => trimmed(&r),
        None => {
            return None;
        },
    };
    let row = match parse_unsigned_chars(&row_text, 10, 255) {
        Some(r) => r as u8,
        None => {
            return None;
        },
    };
    let col_text = match nth_field(&position, ',', 1) {
        Some(c) => trimmed(&c),
        None => {
            return None;
        },
    };
    let col = match parse_unsigned_chars(&col_text, 10, 255) {
        Some(c) => c as u8,
        None => {
            return None;
        },
    };
    let line = match nth_field(&chars, '\n', 1) {
        Some(l) => l,
        None => {
            return None;
        },
    };
    if line.len() == 0 || line[0] != 'l' {
        return None;
    }
    let number = copy_range(&line, 1, line.len());
    assert(number@ =~= line@.drop_first());
    let led = match parse_unsigned_chars(&number, 10, 255) {
        Some(l) => l as u8,
        None => {
            return None;
        },
    };
    if let Some(marker) = nth_field(&chars, '\n', 9) {
        if marker.len() > 0 && marker[0] == 'e' {
            return None;
        }
    }
    Some((led, (row, col)))
}

/// A key legend whose first line is `row,col` and whose second line is `l` and an LED
/// index, each number written in decimal, can be read and describes that LED at that row
/// and column.
pub proof fn lemma_decimal_legend(row: u8, col: u8, led: u8)
    ensures
        ({
            let legend = decimal(row as nat) + seq![','] + decimal(col as nat) + seq!['\n', 'l']
                + decimal(led as nat);
            key_is_readable(legend) && led_of_key(legend) == Some((led, (row, col)))
        }),
{
    let a = decimal(row as nat);
    let b = decimal(col as nat);
    let c = decimal(led as nat);
    lemma_decimal(row as nat);
    lemma_decimal(col as nat);
    lemma_decimal(led as nat);
    lemma_parse_decimal(row as nat, 255);
    lemma_parse_decimal(col as nat, 255);
    lemma_parse_decimal(led as nat, 255);
    let position = a + seq![','] + b;
    let line = seq!['l'] + c;
    let legend = a + seq![','] + b + seq!['\n', 'l'] + c;
    assert(legend =~= position + seq!['\n'] + line);
    assert forall|k: int| 0 <= k < position.len() implies position[k] != '\n' by {
        if k < a.len() {
            assert(is_decimal_char(a[k]));
        } else if k > a.len() {
            assert(is_decimal_char(b[k - a.len() - 1]));
        }
    }
    assert forall|k: int| 0 <= k < line.len() implies line[k] != '\n' by {
        if k > 0 {
            assert(is_decimal_char(c[k - 1]));
        }
    }
    lemma_split_line(position, line, 0);
    lemma_split_line(position, line, 1);
    lemma_split_line(position, line, 9);
    lemma_last_field(line, '\n', 0);
    lemma_last_field(line, '\n', 8);
    // The position splits at the comma into the row and the column.
    assert forall|k: int| 0 <= k < a.len() implies a[k] != ',' by {
        assert(is_decimal_char(a[k]));
    }
    assert forall|k: int| 0 <= k < b.len() implies b[k] != ',' by {
        assert(is_decimal_char(b[k]));
    }
    lemma_split_at(a, ',', b, 0);
    lemma_split_at(a, ',', b, 1);
    lemma_last_field(b, ',', 0);
    assert(line.drop_first() =~= c);
}

proof fn lemma_split_at(first: Seq<char>, sep: char, rest: Seq<char>, n: nat)
    requires
        forall|k: int| 0 <= k < first.len() ==> first[k] != sep,
    ensures
        field(first + seq![sep] + rest, sep, n) == if n == 0 {
            Some(first)
        } else {
            field(rest, sep, (n - 1) as nat)
        },
{
    let s = first + seq![sep] + rest;
    lemma_sep_index(s, sep, first.len() as int);
    assert(s.take(first.len() as int) =~= first);
    assert(s.skip(first.len() + 1int) =~= rest);
}

proof fn lemma_last_field(s: Seq<char>, sep: char, n: nat)
    requires
        forall|k: int| 0 <= k < s.len() ==> s[k] != sep,
    ensures
        field(s, sep, n) == if n == 0 {
            Some(s)
        } else {
            None::<Seq<char>>
        },
{
    lemma_sep_index(s, sep, s.len() as int);
    assert(s.take(s.len() as int) =~= s);
}

proof fn lemma_split_line(first: Seq<char>, rest: Seq<char>, n: nat)
    requires
        forall|k: int| 0 <= k < first.len() ==> first[k] != '\n',
    ensures
        field(first + seq!['\n'] + rest, '\n', n) == if n == 0 {
            Some(first)
        } else {
            field(rest, '\n', (n - 1) as nat)
        },
{
    lemma_split_at(first, '\n', rest, n);
}

proof fn lemma_field_after_line_breaks(breaks: nat, tail: Seq<char>)
    ensures
        field(Seq::new(breaks, |i: int| '\n') + tail, '\n', breaks) == field(tail, '\n', 0),
    decreases breaks,
{
    let s = Seq::new(breaks, |i: int| '\n') + tail;
    if breaks > 0 {
        lemma_sep_index(s, '\n', 0);
        assert(s.skip(1) =~= Seq::new((breaks - 1) as nat, |i: int| '\n') + tail);
        lemma_field_after_line_breaks((breaks - 1) as nat, tail);
    } else {
        assert(s =~= tail);
    }
}

/// A key legend that describes an LED describes none once a tenth line starting with `e`
/// marks the key as an encoder.
pub proof fn lemma_encoder_legend(row: u8, col: u8, led: u8)
    ensures
        ({
            let legend = decimal(row as nat) + seq![','] + decimal(col as nat) + seq!['\n', 'l']
                + decimal(led as nat) + Seq::new(8, |i: int| '\n') + seq!['e'];
            key_is_readable(legend) && led_of_key(legend) is None
        }),
{
    let a = decimal(row as nat);
    let b = decimal(col as nat);
    let c = decimal(led as nat);
    lemma_decimal_legend(row, col, led);
    lemma_decimal(row as nat);
    lemma_decimal(col as nat);
    lemma_decimal(led as nat);
    let position = a + seq![','] + b;
    let line = seq!['l'] + c;
    let tail = Seq::new(7, |i: int| '\n') + seq!['e'];
    let legend = a + seq![','] + b + seq!['\n', 'l'] + c + Seq::new(8, |i: int| '\n') + seq![
        'e',
    ];
    let plain = a + seq![','] + b + seq!['\n', 'l'] + c;
    let rest = line + seq!['\n'] + tail;
    assert(legend =~= position + seq!['\n'] + rest);
    assert(plain =~= position + seq!['\n'] + line);
    assert forall|k: int| 0 <= k < position.len() implies position[k] != '\n' by {
        if k < a.len() {
            assert(is_decimal_char(a[k]));
        } else if k > a.len() {
            assert(is_decimal_char(b[k - a.len() - 1]));
        }
    }
    assert forall|k: int| 0 <= k < line.len() implies line[k] != '\n' by {
        if k > 0 {
            assert(is_decimal_char(c[k - 1]));
        }
    }
    lemma_split_line(position, rest, 0);
    lemma_split_line(position, line, 0);
    lemma_split_line(position, rest, 1);
    lemma_split_line(position, rest, 9);
    lemma_split_line(line, tail, 0);
    lemma_split_line(line, tail, 8);
    lemma_field_after_line_breaks(7, seq!['e']);
    lemma_sep_index(seq!['e'], '\n', 1);
    assert(seq!['e'].take(1) =~= seq!['e']);
    assert(field(legend, '\n', 0) == field(plain, '\n', 0));
    assert(field(legend, '\n', 1) == Some(line));
    assert(field(legend, '\n', 9) == Some(seq!['e']));
    assert(line.drop_first() =~= c);
}

/// The LEDs that the key legends among `entries` describe, in order.
pub open spec fn row_leds(entries: Seq<KeymapEntry>) -> Seq<Led>
    decreases entries.len(),
{
    if entries.len() == 0 {
        Seq::empty()
    } else {
        let rest = row_leds(entries.drop_last());
        match entries.last() {
            KeymapEntry::Key(key) => match led_of_key(key@) {
                Some(led) => rest.push(led),
                None => rest,
            },
            KeymapEntry::Other => rest,
        }
    }
}

/// The LEDs that the key legends of a keymap describe, row by row.
pub open spec fn keymap_leds(rows: Seq<Seq<KeymapEntry>>) -> Seq<Led>
    decreases rows.len(),
{
    if rows.len() == 0 {
        Seq::empty()
    } else {
        keymap_leds(rows.drop_last()) + row_leds(rows.last())
    }
}

/// The rows of a keymap, each as a sequence.
pub open spec fn keymap_rows(keymap: Seq<Vec<KeymapEntry>>) -> Seq<Seq<KeymapEntry>> {
    keymap.map_values(|row: Vec<KeymapEntry>| row@)
}

/// Every key legend of the keymap can be read.
pub open spec fn keymap_is_readable(keymap: Seq<Vec<KeymapEntry>>) -> bool {
    forall|r: int, e: int|
        0 <= r < keymap.len() && 0 <= e < keymap[r]@.len() ==> match #[trigger] keymap[r]@[e] {
            KeymapEntry::Key(key) => key_is_readable(key@),
            KeymapEntry::Other => true,
        }
}

/// Whether a key legend can be read (see [`key_is_readable`]).
pub fn key_readable(key: &String) -> (readable: bool)
    ensures
        readable == key_is_readable(key@),
{
    let chars = chars_of(key.as_str());
    let position = match nth_field(&chars, '\n', 0) {
        Some(p) => p,
        None => {
            return true;
        },
    };
    let row_text = match nth_field(&position, ',', 0) {
        Some(r) => trimmed(&r),
        None => {
            return true;
        },
    };
    match parse_unsigned_chars(&row_text, 10, 255) {
        Some(_) => nth_field(&position, ',', 1).is_some(),
        None => true,
    }
}

/// Whether every key legend of a keymap can be read.
pub fn keymap_readable(keymap: &Vec<Vec<KeymapEntry>>) -> (readable: bool)
    ensures
        readable == keymap_is_readable(keymap@),
{
    let mut r: usize = 0;
    while r < keymap.len()
        invariant
            r <= keymap.len(),
            forall|i: int, e: int|
                0 <= i < r && 0 <= e < keymap@[i]@.len() ==> match #[trigger] keymap@[i]@[e] {
                    KeymapEntry::Key(key) => key_is_readable(key@),
                    KeymapEntry::Other => true,
                },
        decreases keymap.len() - r,
    {
        let row = &keymap[r];
        let mut e: usize = 0;
        while e < row.len()
            invariant
                r < keymap.len(),
                row == &keymap@[r as int],
                e <= row.len(),
                forall|i: int, f: int|
                    0 <= i < r && 0 <= f < keymap@[i]@.len() ==> match #[trigger] keymap@[i]@[f] {
                        KeymapEntry::Key(key) => key_is_readable(key@),
                        KeymapEntry::Other => true,
                    },
                forall|f: int|
                    0 <= f < e ==> match #[trigger] row@[f] {
                        KeymapEntry::Key(key) => key_is_readable(key@),
                        KeymapEntry::Other => true,
                    },
            decreases row.len() - e,
        {
            if let KeymapEntry::Key(key) = &row[e] {
                if !key_readable(key) {
                    assert(keymap@[r as int]@[e as int] == row@[e as int]);
                    return false;
                }
            }
            e = e + 1;
        }
        assert forall|i: int, f: int|
            0 <= i <= r && 0 <= f < keymap@[i]@.len() implies match #[trigger] keymap@[i]@[f] {
                KeymapEntry::Key(key) => key_is_readable(key@),
                KeymapEntry::Other => true,
            } by {
            if i == r {
                assert(keymap@[i]@[f] == row@[f]);
            }
        }
        r = r + 1;
    }
    true
}

/// LEDs in ascending order: by index, then row, then column.
pub open spec fn led_le(a: Led, b: Led) -> bool {
    ||| a.0 < b.0
    ||| a.0 == b.0 && a.1.0 < b.1.0
    ||| a.0 == b.0 && a.1.0 == b.1.0 && a.1.1 <= b.1.1
}

/// The LEDs are in ascending order.
pub open spec fn leds_sorted(leds: Seq<Led>) -> bool {
    forall|i: int, j: int| 0 <= i < j < leds.len() ==> led_le(#[trigger] leds[i], #[trigger] leds[j])
}

/// `Itertools::sorted` on LEDs: the same LEDs, each as often as before, in ascending order
/// of the tuples (index, then row, then column).
#[verifier::external_body]
fn sort_leds(leds: Vec<Led>) -> (sorted: Vec<Led>)
    ensures
        sorted@.to_multiset() == leds@.to_multiset(),
        leds_sorted(sorted@),
{
    leds.into_iter().sorted().collect()
}

/// The LEDs that a keymap describes, in ascending order.
pub fn parse_leds(keymap: &Vec<Vec<KeymapEntry>>) -> (leds: Vec<Led>)
    requires
        keymap_is_readable(keymap@),
    ensures
        leds@.to_multiset() == keymap_leds(keymap_rows(keymap@)).to_multiset(),
        leds_sorted(leds@),
{
    let ghost rows = keymap_rows(keymap@);
    let mut found: Vec<Led> = Vec::new();
    let mut r: usize = 0;
    while r < keymap.len()
        invariant
            r <= keymap.len(),
            rows == keymap_rows(keymap@),
            keymap_is_readable(keymap@),
            found@ == keymap_leds(rows.take(r as int)),
        decreases keymap.len() - r,
    {
        let row = &keymap[r];
        let mut e: usize = 0;
        while e < row.len()
            invariant
                r < keymap.len(),
                row == &keymap@[r as int],
                e <= row.len(),
                keymap_is_readable(keymap@),
                found@ == keymap_leds(rows.take(r as int)) + row_leds(row@.take(e as int)),
            decreases row.len() - e,
        {
            assert(row@.take(e + 1).drop_last() =~= row@.take(e as int));
            match &row[e] {
                KeymapEntry::Key(key) => {
                    assert(keymap@[r as int]@[e as int] == row@[e as int]);
                    if let Some(led) = extract_led(key) {
                        found.push(led);
                    }
                },
                KeymapEntry::Other => {},
            }
            e = e + 1;
        }
        assert(row@.take(row@.len() as int) =~= row@);
        assert(rows.take(r + 1).drop_last() =~= rows.take(r as int));
        r = r + 1;
    }
    assert(rows.take(keymap.len() as int) =~= rows);
    sort_leds(found)
}

/// `s` without every leading `0x` (as `str::trim_start_matches("0x")`).
pub open spec fn strip_hex_prefixes(s: Seq<char>) -> Seq<char>
    decreases s.len(),
{
    if s.len() >= 2 && s[0] == '0' && s[1] == 'x' {
        strip_hex_prefixes(s.skip(2))
    } else {
        s
    }
}

/// The number that a hexadecimal id such as `0x320F` writes, or 0 where it is none.
pub open spec fn hex_id_value(s: Seq<char>) -> u16 {
    match parse_unsigned(strip_hex_prefixes(s), 16, 0xFFFF) {
        Some(v) => v as u16,
        None => 0,
    }
}

/// Reads a hexadecimal USB id such as `0x320F`: every leading `0x` is dropped, and what is
/// left must be a hexadecimal number that fits in 16 bits, else the id is 0.
pub fn parse_hex(s: &str) -> (id: u16)
    ensures
        id == hex_id_value(s@),
{
    let chars = chars_of(s);
    let mut i: usize = 0;
    assert(chars@.skip(0) =~= chars@);
    while chars.len() - i >= 2 && chars[i] == '0' && chars[i + 1] == 'x'
        invariant
            i <= chars.len(),
            strip_hex_prefixes(chars@) == strip_hex_prefixes(chars@.skip(i as int)),
        decreases chars.len() - i,
    {
        assert(chars@.skip(i as int).skip(2) =~= chars@.skip(i + 2));
        i = i + 2;
    }
    let rest = copy_range(&chars, i, chars.len());
    assert(rest@ =~= chars@.skip(i as int));
    match parse_unsigned_chars(&rest, 16, 0xFFFF) {
        Some(v) => v as u16,
        None => 0,
    }
}

impl Config {
    /// The number of LEDs: one more than the highest LED index, or 0 without LEDs.
    pub fn count_leds(&self) -> (count: u32)
        ensures
            count == led_count(self.leds@),
    {
        let mut i: usize = 0;
        let mut highest: Option<u8> = None;
        while i < self.leds.len()
            invariant
                i <= self.leds.len(),
                highest == highest_led(self.leds@.take(i as int)),
            decreases self.leds.len() - i,
        {
            assert(self.leds@.take(i + 1).drop_last() =~= self.leds@.take(i as int));
            let index: u8 = self.leds[i].0;
            highest = match highest {
                Some(h) => if index > h {
                    Some(index)
                } else {
                    Some(h)
                },
                None => Some(index),
            };
            i = i + 1;
        }
        assert(self.leds@.take(i as int) =~= self.leds@);
        match highest {
            Some(h) => h as u32 + 1,
            None => 0,
        }
    }

    /// The position of the first effect with effect id `effect_id`, if there is one.
    pub fn get_mode_index(&self, effect_id: i32) -> (index: Option<usize>)
        ensures
            index == mode_index_of(self.effects@, effect_id),
    {
        let mut i: usize = 0;
        while i < self.effects.len()
            invariant
                i <= self.effects.len(),
                forall|j: int| 0 <= j < i ==> self.effects@[j].1 != effect_id,
            decreases self.effects.len() - i,
        {
            if self.effects[i].1 == effect_id {
                return Some(i);
            }
            i = i + 1;
        }
        None
    }

    /// The effect id of the effect at position `mode_index`, if there is one.
    pub fn get_effect_id(&self, mode_index: usize) -> (effect_id: Option<i32>)
        ensures
            effect_id == (if mode_index < self.effects@.len() {
                Some(self.effects@[mode_index as int].1)
            } else {
                None
            }),
    {
        if mode_index < self.effects.len() {
            Some(self.effects[mode_index].1)
        } else {
            None
        }
    }
}

/// The highest LED index among `leds`.
pub open spec fn highest_led(leds: Seq<Led>) -> Option<u8>
    decreases leds.len(),
{
    if leds.len() == 0 {
        None
    } else {
        let index = leds.last().0;
        match highest_led(leds.drop_last()) {
            Some(h) => if index > h {
                Some(index)
            } else {
                Some(h)
            },
            None => Some(index),
        }
    }
}

/// One more than the highest LED index, or 0 without LEDs.
pub open spec fn led_count(leds: Seq<Led>) -> u32 {
    match highest_led(leds) {
        Some(h) => (h + 1) as u32,
        None => 0,
    }
}

/// The position of the first effect with effect id `effect_id`.
pub open spec fn mode_index_of(effects: Seq<Effect>, effect_id: i32) -> Option<usize> {
    if exists|i: int| 0 <= i < effects.len() && effects[i].1 == effect_id {
        let i = choose|i: int|
            0 <= i < effects.len() && effects[i].1 == effect_id && forall|j: int|
                0 <= j < i ==> effects[j].1 != effect_id;
        Some(i as usize)
    } else {
        None
    }
}

/// The controls of a list of menu sections, section by section.
pub open spec fn section_options(sections: Seq<MenuContent>) -> Seq<MenuOption>
    decreases sections.len(),
{
    if sections.len() == 0 {
        Seq::empty()
    } else {
        section_options(sections.drop_last()) + sections.last().content@
    }
}

/// The controls of a list of menus, menu by menu and section by section.
pub open spec fn menu_options(menus: Seq<Menu>) -> Seq<MenuOption>
    decreases menus.len(),
{
    if menus.len() == 0 {
        Seq::empty()
    } else {
        menu_options(menus.drop_last()) + section_options(menus.last().content@)
    }
}

/// All controls of all menus, in order.
pub fn flatten_menus(menus: Vec<Menu>) -> (options: Vec<MenuOption>)
    ensures
        options@ == menu_options(menus@),
{
    let ghost all = menus@;
    let mut options: Vec<MenuOption> = Vec::new();
    for menu in it: menus.into_iter()
        invariant
            it.seq() == all,
            options@ == menu_options(all.take(it.index() as int)),
    {
        let ghost before = options@;
        let ghost sections = menu.content@;
        assert(all.take(it.index() + 1).drop_last() =~= all.take(it.index() as int));
        for section in it2: menu.content.into_iter()
            invariant
                it2.seq() == sections,
                options@ == before + section_options(sections.take(it2.index() as int)),
        {
            let ghost mid = options@;
            let ghost opts = section.content@;
            assert(sections.take(it2.index() + 1).drop_last() =~= sections.take(
                it2.index() as int,
            ));
            for option in it3: section.content.into_iter()
                invariant
                    it3.seq() == opts,
                    options@ == mid + opts.take(it3.index() as int),
            {
                options.push(option);
                assert(options@ =~= mid + opts.take(it3.index() + 1));
            }
            assert(opts.take(opts.len() as int) =~= opts);
            assert(options@ =~= before + section_options(sections.take(it2.index() + 1)));
        }
        assert(sections.take(sections.len() as int) =~= sections);
    }
    assert(all.take(all.len() as int) =~= all);
    options
}

/// The range of the first range control whose value id is `target`, or `(0, 0)`.
pub open spec fn range_with_id(options: Seq<MenuOption>, target: Seq<char>) -> Range
    decreases options.len(),
{
    if options.len() == 0 {
        (0, 0)
    } else {
        match options[0] {
            MenuOption::Range { id: Some(id), options: range, .. } => if id@ == target {
                range
            } else {
                range_with_id(options.drop_first(), target)
            },
            _ => range_with_id(options.drop_first(), target),
        }
    }
}

impl Config {
    /// The range of the first range control whose value id is `target`, or `(0, 0)`.
    pub fn find_range(menus: &Vec<MenuOption>, target: &str) -> (range: Range)
        ensures
            range == range_with_id(menus@, target@),
    {
        let mut i: usize = 0;
        assert(menus@.skip(0) =~= menus@);
        while i < menus.len()
            invariant
                i <= menus.len(),
                range_with_id(menus@, target@) == range_with_id(menus@.skip(i as int), target@),
            decreases menus.len() - i,
        {
            assert(menus@.skip(i as int).drop_first() =~= menus@.skip(i + 1));
            assert(menus@.skip(i as int)[0] == menus@[i as int]);
            if let MenuOption::Range { id: Some(id), options: range, .. } = &menus[i] {
                if same_text(id.as_str(), target) {
                    return *range;
                }
            }
            i = i + 1;
        }
        (0, 0)
    }
}

/// A control that adds a mode flag to the effects for which its condition holds.
#[derive(Debug)]
pub struct Control {
    /// The `showIf` condition, where there is one that `evalexpr` accepts.
    pub condition: Option<String>,
    /// The mode flag that the control stands for.
    pub flag: u32,
}

impl View for Control {
    type V = (Option<Seq<char>>, u32);

    open spec fn view(&self) -> (Option<Seq<char>>, u32) {
        (
            match self.condition {
                Some(c) => Some(c@),
                None => None,
            },
            self.flag,
        )
    }
}

/// The condition that a control keeps of a `showIf` expression: the expression where
/// `evalexpr` accepts it, else none (the control then holds for every effect).
pub open spec fn kept_condition(expression: Option<String>) -> Option<Seq<char>> {
    match expression {
        Some(e) => if expression_parses(e@) {
            Some(e@)
        } else {
            None
        },
        None => None,
    }
}

/// The variable that `showIf` conditions name the effect id by.
pub open spec fn effect_variable() -> Seq<char> {
    "{id_qmk_rgb_matrix_effect}"@
}

/// A control holds for an effect where it has no condition, or where its condition
/// evaluates to `true` for the effect's id.
pub open spec fn control_holds(control: (Option<Seq<char>>, u32), effect_id: i32) -> bool {
    match control.0 {
        Some(condition) => expression_truth(condition, effect_variable(), effect_id) == Some(
            true,
        ),
        None => true,
    }
}

impl Control {
    /// A control for `flag` under the `showIf` condition `expression`.
    pub fn new(expression: &Option<String>, flag: u32) -> (control: Control)
        ensures
            control@ == (kept_condition(*expression), flag),
    {
        let condition = match expression {
            Some(e) => if expression_is_valid(e.as_str()) {
                Some(e.clone())
            } else {
                None
            },
            None => None,
        };
        Control { condition, flag }
    }

    /// Whether the control holds for the effect with id `effect_id`.
    pub fn is_active(&self, effect_id: i32) -> (active: bool)
        ensures
            active == control_holds(self@, effect_id),
    {
        match &self.condition {
            Some(condition) => {
                let variable = "{id_qmk_rgb_matrix_effect}";
                proof {
                    reveal_strlit("{id_qmk_rgb_matrix_effect}");
                }
                let truth = evaluate_with_variable(condition.as_str(), variable, effect_id);
                match truth {
                    Some(b) => b,
                    None => false,
                }
            },
            None => true,
        }
    }
}

/// Value id of the brightness setting.
pub open spec fn brightness_id() -> Seq<char> {
    "id_qmk_rgb_matrix_brightness"@
}

/// Value id of the effect speed setting.
pub open spec fn speed_id() -> Seq<char> {
    "id_qmk_rgb_matrix_effect_speed"@
}

/// Value id of the effect colour setting.
pub open spec fn color_id() -> Seq<char> {
    "id_qmk_rgb_matrix_color"@
}

/// Value id of the effect choice.
pub open spec fn effect_id_name() -> Seq<char> {
    "id_qmk_rgb_matrix_effect"@
}

/// The value id is present and equals `target`.
pub open spec fn has_id(id: Option<String>, target: Seq<char>) -> bool {
    match id {
        Some(i) => i@ == target,
        None => false,
    }
}

/// The control that a menu control stands for, if any: brightness and speed ranges,
/// effect colours and per-LED colour palettes.
pub open spec fn option_control(option: MenuOption) -> Option<(Option<Seq<char>>, u32)> {
    match option {
        MenuOption::Range { id, show_if, .. } => if has_id(id, brightness_id()) {
            Some((kept_condition(show_if), MODE_FLAG_HAS_BRIGHTNESS))
        } else if has_id(id, speed_id()) {
            Some((kept_condition(show_if), MODE_FLAG_HAS_SPEED))
        } else {
            None
        },
        MenuOption::Color { id, show_if } => if has_id(id, color_id()) {
            Some((kept_condition(show_if), MODE_FLAG_HAS_MODE_SPECIFIC_COLOR))
        } else {
            None
        },
        MenuOption::ColorPalette { id, show_if } => if has_id(id, color_id()) {
            Some((kept_condition(show_if), MODE_FLAG_HAS_PER_LED_COLOR))
        } else {
            None
        },
        _ => None,
    }
}

/// The controls of the menu controls `options`, in order.
pub open spec fn option_controls(options: Seq<MenuOption>) -> Seq<(Option<Seq<char>>, u32)>
    decreases options.len(),
{
    if options.len() == 0 {
        Seq::empty()
    } else {
        match option_control(options.last()) {
            Some(c) => option_controls(options.drop_last()).push(c),
            None => option_controls(options.drop_last()),
        }
    }
}

/// Whether a menu control's value id is the effect colour.
pub fn is_color_control(id: &Option<String>) -> (is_color: bool)
    ensures
        is_color == has_id(*id, color_id()),
{
    proof {
        reveal_strlit("id_qmk_rgb_matrix_color");
    }
    match id {
        Some(i) => same_text(i.as_str(), "id_qmk_rgb_matrix_color"),
        None => false,
    }
}

impl Config {
    /// The controls that the menu controls stand for.
    pub fn collect_controls(menus: &Vec<MenuOption>) -> (controls: Vec<Control>)
        ensures
            controls@.map_values(|c: Control| c@) == option_controls(menus@),
    {
        proof {
            reveal_strlit("id_qmk_rgb_matrix_brightness");
            reveal_strlit("id_qmk_rgb_matrix_effect_speed");
        }
        let mut controls: Vec<Control> = Vec::new();
        let mut i: usize = 0;
        while i < menus.len()
            invariant
                i <= menus.len(),
                controls@.map_values(|c: Control| c@) == option_controls(menus@.take(i as int)),
            decreases menus.len() - i,
        {
            assert(menus@.take(i + 1).drop_last() =~= menus@.take(i as int));
            assert(menus@.take(i + 1).last() == menus@[i as int]);
            let ghost before = controls@;
            let control = match &menus[i] {
                MenuOption::Range { id: Some(id), show_if, .. } => {
                    if same_text(id.as_str(), "id_qmk_rgb_matrix_brightness") {
                        Some(Control::new(show_if, MODE_FLAG_HAS_BRIGHTNESS))
                    } else if same_text(id.as_str(), "id_qmk_rgb_matrix_effect_speed") {
                        Some(Control::new(show_if, MODE_FLAG_HAS_SPEED))
                    } else {
                        None
                    }
                },
                MenuOption::Color { id, show_if } => {
                    if is_color_control(id) {
                        Some(Control::new(show_if, MODE_FLAG_HAS_MODE_SPECIFIC_COLOR))
                    } else {
                        None
                    }
                },
                MenuOption::ColorPalette { id, show_if } => {
                    if is_color_control(id) {
                        Some(Control::new(show_if, MODE_FLAG_HAS_PER_LED_COLOR))
                    } else {
                        None
                    }
                },
                _ => None,
            };
            if let Some(c) = control {
                controls.push(c);
                assert(controls@.map_values(|c: Control| c@) =~= before.map_values(
                    |c: Control| c@,
                ).push(c@));
            }
            i = i + 1;
        }
        assert(menus@.take(menus.len() as int) =~= menus@);
        controls
    }
}

/// The dropdown that chooses the effect.
pub open spec fn is_effect_dropdown(option: MenuOption) -> bool {
    option matches MenuOption::Dropdown { id, .. } && has_id(id, effect_id_name())
}

/// The options of the first dropdown that chooses the effect, or none.
pub open spec fn effect_options(options: Seq<MenuOption>) -> Seq<IndexedOption> {
    if exists|i: int| 0 <= i < options.len() && is_effect_dropdown(#[trigger] options[i]) {
        let i = choose|i: int|
            0 <= i < options.len() && is_effect_dropdown(#[trigger] options[i]) && forall|j: int|
                0 <= j < i ==> !is_effect_dropdown(#[trigger] options[j]);
        match options[i] {
            MenuOption::Dropdown { options: choices, .. } => choices@,
            _ => Seq::empty(),
        }
    } else {
        Seq::empty()
    }
}

/// The mode flags of the controls that hold for the effect with id `effect_id`, together.
pub open spec fn active_flags(controls: Seq<(Option<Seq<char>>, u32)>, effect_id: i32) -> u32
    decreases controls.len(),
{
    if controls.len() == 0 {
        0
    } else {
        active_flags(controls.drop_last(), effect_id) | (if control_holds(
            controls.last(),
            effect_id,
        ) {
            controls.last().1
        } else {
            0
        })
    }
}

/// The OpenRGB mode flags of an effect, from the flags of the controls that hold for it:
/// an effect other than effect 0 with no colour control picks random colours, and an
/// effect with a speed or colour setting is saved on request only.
pub open spec fn effect_mode_flags(control_flags: u32, effect_id: i32) -> u32 {
    let flags = if control_flags & (MODE_FLAG_HAS_PER_LED_COLOR
        | MODE_FLAG_HAS_MODE_SPECIFIC_COLOR) == 0 && effect_id != 0 {
        control_flags | MODE_FLAG_HAS_RANDOM_COLOR
    } else {
        control_flags
    };
    if flags & (MODE_FLAG_HAS_SPEED | MODE_FLAG_HAS_MODE_SPECIFIC_COLOR) != 0 {
        flags | MODE_FLAG_MANUAL_SAVE
    } else {
        flags
    }
}

/// The OpenRGB mode flags of the effect with id `effect_id`, given the flags of the controls
/// that hold for it.
pub fn mode_flags(control_flags: u32, effect_id: i32) -> (flags: u32)
    ensures
        flags == effect_mode_flags(control_flags, effect_id),
        flags & control_flags == control_flags,
        flags & (MODE_FLAG_HAS_SPEED | MODE_FLAG_HAS_MODE_SPECIFIC_COLOR) != 0 ==> flags
            & MODE_FLAG_MANUAL_SAVE != 0,
        control_flags & (MODE_FLAG_HAS_PER_LED_COLOR | MODE_FLAG_HAS_MODE_SPECIFIC_COLOR) == 0
            && effect_id != 0 ==> flags & MODE_FLAG_HAS_RANDOM_COLOR != 0,
{
    assert(1u32 | 64u32 == 65u32) by (bit_vector);
    assert(32u32 | 64u32 == 96u32) by (bit_vector);
    let has_no_color = control_flags & (MODE_FLAG_HAS_PER_LED_COLOR
        | MODE_FLAG_HAS_MODE_SPECIFIC_COLOR) == 0;
    let colored = if has_no_color && effect_id != 0 {
        control_flags | MODE_FLAG_HAS_RANDOM_COLOR
    } else {
        control_flags
    };
    let flags = if colored & (MODE_FLAG_HAS_SPEED | MODE_FLAG_HAS_MODE_SPECIFIC_COLOR) != 0 {
        colored | MODE_FLAG_MANUAL_SAVE
    } else {
        colored
    };
    assert(flags & control_flags == control_flags) by (bit_vector)
        requires
            colored == control_flags || colored == control_flags | 128u32,
            flags == colored || flags == colored | 256u32,
    ;
    assert(flags & 65u32 != 0 ==> flags & 256u32 != 0) by (bit_vector)
        requires
            (colored & 65u32 != 0 && flags == colored | 256u32) || (colored & 65u32 == 0 && flags
                == colored),
    ;
    if has_no_color && effect_id != 0 {
        assert(flags & 128u32 != 0) by (bit_vector)
            requires
                colored == control_flags | 128u32,
                flags == colored || flags == colored | 256u32,
        ;
    }
    flags
}

/// The name and effect id of a dropdown option at position `index`.
pub open spec fn option_name_id(option: IndexedOption, index: int) -> (String, i32) {
    match option {
        IndexedOption::Explicit(name, id) => (name, id),
        IndexedOption::Implicit(name) => (name, index as i32),
    }
}

/// The effects that the options of the effect dropdown list, in order.
pub open spec fn listed_effects(
    choices: Seq<IndexedOption>,
    controls: Seq<(Option<Seq<char>>, u32)>,
) -> Seq<Effect> {
    Seq::new(
        choices.len(),
        |i: int|
            {
                let (name, id) = option_name_id(choices[i], i);
                (name, id, effect_mode_flags(active_flags(controls, id), id))
            },
    )
}

/// The effect has per-LED colours (it is the direct mode).
pub open spec fn is_direct_mode(effect: Effect) -> bool {
    effect.2 & MODE_FLAG_HAS_PER_LED_COLOR != 0
}

/// The effects with the first direct mode moved to the front.
pub open spec fn lift_direct_mode(effects: Seq<Effect>) -> Seq<Effect> {
    if exists|i: int| 0 <= i < effects.len() && is_direct_mode(#[trigger] effects[i]) {
        let p = choose|i: int|
            0 <= i < effects.len() && is_direct_mode(#[trigger] effects[i]) && forall|j: int|
                0 <= j < i ==> !is_direct_mode(#[trigger] effects[j]);
        effects.remove(p).insert(0, effects[p])
    } else {
        effects
    }
}

/// The effects of a keyboard with the menu controls `options`.
pub open spec fn menu_effects(options: Seq<MenuOption>) -> Seq<Effect> {
    lift_direct_mode(listed_effects(effect_options(options), option_controls(options)))
}

impl Config {
    /// The effects that the effect dropdown lists, with their mode flags, and the direct
    /// mode (if any) moved to the front for the sake of clients that expect it there.
    pub fn parse_effects(menus: Vec<MenuOption>) -> (effects: Vec<Effect>)
        ensures
            effects@ == menu_effects(menus@),
    {
        let controls = Self::collect_controls(&menus);
        let ghost control_views = controls@.map_values(|c: Control| c@);
        let ghost all = menus@;
        let mut menus = menus;
        let mut i: usize = 0;
        while i < menus.len() && !Self::is_effect_choice(&menus[i])
            invariant
                menus@ == all,
                i <= menus.len(),
                forall|j: int| 0 <= j < i ==> !is_effect_dropdown(#[trigger] all[j]),
            decreases menus.len() - i,
        {
            i = i + 1;
        }
        let choices: Vec<IndexedOption> = if i < menus.len() {
            assert(is_effect_dropdown(all[i as int]));
            match menus.swap_remove(i) {
                MenuOption::Dropdown { options, .. } => options,
                _ => Vec::new(),
            }
        } else {
            Vec::new()
        };
        assert(choices@ == effect_options(all));
        let ghost listed = listed_effects(choices@, control_views);
        let mut effects: Vec<Effect> = Vec::new();
        let mut index: usize = 0;
        let count: usize = choices.len();
        for option in it: choices.into_iter()
            invariant
                it.seq() == effect_options(all),
                it.seq().len() == count,
                index == it.index(),
                listed == listed_effects(it.seq(), control_views),
                control_views == controls@.map_values(|c: Control| c@),
                effects@ == listed.take(index as int),
        {
            let (name, id) = match option {
                IndexedOption::Explicit(name, id) => (name, id),
                IndexedOption::Implicit(name) => (name, #[verifier::truncate] (index as i32)),
            };
            let mut control_flags: u32 = 0;
            let mut k: usize = 0;
            while k < controls.len()
                invariant
                    k <= controls.len(),
                    control_views == controls@.map_values(|c: Control| c@),
                    control_flags == active_flags(control_views.take(k as int), id),
                decreases controls.len() - k,
            {
                assert(control_views.take(k + 1).drop_last() =~= control_views.take(k as int));
                assert(control_views.take(k + 1).last() == controls@[k as int]@);
                if controls[k].is_active(id) {
                    control_flags = control_flags | controls[k].flag;
                } else {
                    assert(control_flags | 0u32 == control_flags) by (bit_vector);
                }
                k = k + 1;
            }
            assert(control_views.take(k as int) =~= control_views);
            let flags = mode_flags(control_flags, id);
            effects.push((name, id, flags));
            index = index + 1;
            assert(effects@ =~= listed.take(index as int));
        }
        assert(listed.take(index as int) =~= listed);
        let mut p: usize = 0;
        while p < effects.len() && effects[p].2 & MODE_FLAG_HAS_PER_LED_COLOR == 0
            invariant
                p <= effects.len(),
                forall|j: int| 0 <= j < p ==> !is_direct_mode(#[trigger] effects@[j]),
            decreases effects.len() - p,
        {
            p = p + 1;
        }
        let ghost before = effects@;
        if p < effects.len() {
            assert(is_direct_mode(before[p as int]));
            let effect = effects.remove(p);
            effects.insert(0, effect);
        }
        effects
    }

    /// Whether a menu control is the dropdown that chooses the effect.
    pub fn is_effect_choice(option: &MenuOption) -> (is_choice: bool)
        ensures
            is_choice == is_effect_dropdown(*option),
    {
        proof {
            reveal_strlit("id_qmk_rgb_matrix_effect");
        }
        match option {
            MenuOption::Dropdown { id: Some(id), .. } => same_text(
                id.as_str(),
                "id_qmk_rgb_matrix_effect",
            ),
            _ => false,
        }
    }
}

/// The LEDs of a keymap are `leds`: the same LEDs as its key legends describe, each as
/// often, in ascending order.
pub open spec fn are_keymap_leds(leds: Seq<Led>, keymap: Seq<Vec<KeymapEntry>>) -> bool {
    &&& leds.to_multiset() == keymap_leds(keymap_rows(keymap)).to_multiset()
    &&& leds_sorted(leds)
}

impl Config {
    /// The configuration that a VIA keyboard definition describes.
    pub fn from_keyboard_json(json: KeyboardJson) -> (config: Config)
        requires
            keymap_is_readable(json.layouts.keymap@),
        ensures
            config.name == json.name,
            config.vendor@ == (match json.vendor {
                Some(v) => v@,
                None => "Unknown"@,
            }),
            config.vendor_id == hex_id_value(json.vendor_id@),
            config.product_id == hex_id_value(json.product_id@),
            config.matrix == (json.matrix.cols, json.matrix.rows),
            are_keymap_leds(config.leds@, json.layouts.keymap@),
            config.speed == range_with_id(menu_options(json.menus@), speed_id()),
            config.brightness == range_with_id(menu_options(json.menus@), brightness_id()),
            config.effects@ == menu_effects(menu_options(json.menus@)),
    {
        let KeyboardJson { name, vendor, vendor_id, product_id, matrix, menus, layouts } = json;
        let menus = flatten_menus(menus);
        let vendor = match vendor {
            Some(v) => v,
            None => "Unknown".to_string(),
        };
        proof {
            reveal_strlit("id_qmk_rgb_matrix_effect_speed");
            reveal_strlit("id_qmk_rgb_matrix_brightness");
        }
        let leds = parse_leds(&layouts.keymap);
        let speed = Self::find_range(&menus, "id_qmk_rgb_matrix_effect_speed");
        let brightness = Self::find_range(&menus, "id_qmk_rgb_matrix_brightness");
        Config {
            name,
            vendor,
            vendor_id: parse_hex(vendor_id.as_str()),
            product_id: parse_hex(product_id.as_str()),
            matrix: (matrix.cols, matrix.rows),
            leds,
            speed,
            brightness,
            effects: Self::parse_effects(menus),
        }
    }
}

/// `config` is the configuration that the keyboard definition `json` describes.
pub open spec fn is_config_of(config: Config, json: KeyboardJson) -> bool {
    &&& config.name == json.name
    &&& config.vendor@ == (match json.vendor {
        Some(v) => v@,
        None => "Unknown"@,
    })
    &&& config.vendor_id == hex_id_value(json.vendor_id@)
    &&& config.product_id == hex_id_value(json.product_id@)
    &&& config.matrix == (json.matrix.cols, json.matrix.rows)
    &&& are_keymap_leds(config.leds@, json.layouts.keymap@)
    &&& config.speed == range_with_id(menu_options(json.menus@), speed_id())
    &&& config.brightness == range_with_id(menu_options(json.menus@), brightness_id())
    &&& config.effects@ == menu_effects(menu_options(json.menus@))
}

impl Config {
    /// The configuration that a VIA keyboard definition describes, or `None` where one of
    /// its key legends cannot be read (a first line with a row number but no column).
    pub fn from_keyboard_json_checked(json: KeyboardJson) -> (config: Option<Config>)
        ensures
            config is Some == keymap_is_readable(json.layouts.keymap@),
            config matches Some(c) ==> is_config_of(c, json),
    {
        if keymap_readable(&json.layouts.keymap) {
            Some(Self::from_keyboard_json(json))
        } else {
            None
        }
    }
}

/// The effects keep their number and each effect, and where any effect is the direct mode,
/// the first effect is.
pub proof fn lemma_direct_mode_first(effects: Seq<Effect>)
    ensures
        lift_direct_mode(effects).to_multiset() == effects.to_multiset(),
        lift_direct_mode(effects).len() == effects.len(),
        (exists|i: int| 0 <= i < effects.len() && is_direct_mode(#[trigger] effects[i]))
            ==> is_direct_mode(lift_direct_mode(effects)[0]),
{
    broadcast use vstd::seq_lib::group_to_multiset_ensures;

    if exists|i: int| 0 <= i < effects.len() && is_direct_mode(#[trigger] effects[i]) {
        let p = choose|i: int|
            0 <= i < effects.len() && is_direct_mode(#[trigger] effects[i]) && forall|j: int|
                0 <= j < i ==> !is_direct_mode(#[trigger] effects[j]);
        let witness = choose|i: int| 0 <= i < effects.len() && is_direct_mode(#[trigger] effects[i]);
        lemma_first_index(effects, witness);
        let rest = effects.remove(p);
        let lifted = rest.insert(0, effects[p]);
        assert(lifted =~= seq![effects[p]] + rest);
        assert((seq![effects[p]] + rest).drop_first() =~= rest);
        assert(lifted.to_multiset() =~= rest.to_multiset().insert(effects[p]));
        assert(effects.to_multiset().count(effects[p]) > 0) by {
            assert(effects.contains(effects[p]));
        }
    }
}

proof fn lemma_first_index(effects: Seq<Effect>, w: int)
    requires
        0 <= w < effects.len(),
        is_direct_mode(effects[w]),
    ensures
        exists|i: int|
            0 <= i < effects.len() && is_direct_mode(#[trigger] effects[i]) && forall|j: int|
                0 <= j < i ==> !is_direct_mode(#[trigger] effects[j]),
    decreases w,
{
    if exists|j: int| 0 <= j < w && is_direct_mode(#[trigger] effects[j]) {
        let v = choose|j: int| 0 <= j < w && is_direct_mode(#[trigger] effects[j]);
        lemma_first_index(effects, v);
    }
}

/// Every LED index is below the LED count; the count is 0 exactly without LEDs, and is
/// otherwise one more than some LED's index.
pub proof fn lemma_led_count(leds: Seq<Led>)
    ensures
        forall|i: int| 0 <= i < leds.len() ==> (#[trigger] leds[i]).0 < led_count(leds),
        leds.len() == 0 <==> led_count(leds) == 0,
        leds.len() > 0 ==> exists|i: int| 0 <= i < leds.len() && (#[trigger] leds[i]).0 + 1 == led_count(leds),
{
    lemma_highest_led(leds);
}

proof fn lemma_highest_led(leds: Seq<Led>)
    ensures
        leds.len() == 0 <==> highest_led(leds) is None,
        highest_led(leds) matches Some(h) ==> (forall|i: int|
            0 <= i < leds.len() ==> (#[trigger] leds[i]).0 <= h) && exists|i: int|
            0 <= i < leds.len() && (#[trigger] leds[i]).0 == h,
    decreases leds.len(),
{
    if leds.len() > 0 {
        let rest = leds.drop_last();
        lemma_highest_led(rest);
        assert forall|i: int| 0 <= i < rest.len() implies #[trigger] leds[i] == rest[i] by {}
        if let Some(h) = highest_led(rest) {
            let w = choose|i: int| 0 <= i < rest.len() && (#[trigger] rest[i]).0 == h;
            assert(leds[w] == rest[w]);
        }
    }
}

/// The mode index of an effect id points at an effect with that id, the first one; there
/// is none only where no effect has the id.
pub proof fn lemma_mode_index_of(effects: Seq<Effect>, effect_id: i32)
    requires
        effects.len() <= usize::MAX,
    ensures
        match mode_index_of(effects, effect_id) {
            Some(i) => i < effects.len() && effects[i as int].1 == effect_id && forall|j: int|
                0 <= j < i ==> effects[j].1 != effect_id,
            None => forall|i: int| 0 <= i < effects.len() ==> effects[i].1 != effect_id,
        },
{
    if exists|i: int| 0 <= i < effects.len() && effects[i].1 == effect_id {
        let w = choose|i: int| 0 <= i < effects.len() && effects[i].1 == effect_id;
        lemma_first_with_id(effects, effect_id, w);
    }
}

proof fn lemma_first_with_id(effects: Seq<Effect>, effect_id: i32, w: int)
    requires
        0 <= w < effects.len(),
        effects[w].1 == effect_id,
    ensures
        exists|i: int|
            0 <= i < effects.len() && effects[i].1 == effect_id && forall|j: int|
                0 <= j < i ==> effects[j].1 != effect_id,
    decreases w,
{
    if exists|j: int| 0 <= j < w && effects[j].1 == effect_id {
        let v = choose|j: int| 0 <= j < w && effects[j].1 == effect_id;
        lemma_first_with_id(effects, effect_id, v);
    }
}

/// The mode index found for the effect id of the mode at `index` is `index` itself or an
/// earlier mode with the same effect id; the effect id found for a mode index found for an
/// id is that id.
pub proof fn lemma_mode_index_effect_id(effects: Seq<Effect>, index: int)
    requires
        0 <= index < effects.len(),
        effects.len() <= usize::MAX,
    ensures
        mode_index_of(effects, effects[index].1) matches Some(j) && j <= index && effects[j as int].1
            == effects[index].1,
{
    lemma_mode_index_of(effects, effects[index].1);
}

} // verus!
