//! The name of the key or mouse button that an input event stands for.
use crate::event::{InputEvent, InputEventView};
use crate::strmap::map_of;
use crate::text::str_eq;
use vstd::prelude::*;

verus! {

/// The name of the mouse button with the given index, if it is one of the
/// seven buttons.
pub open spec fn button_name_of(button_index: int) -> Option<Seq<char>> {
    if button_index == 1 {
        Some("left"@)
    } else if button_index == 2 {
        Some("right"@)
    } else if button_index == 3 {
        Some("middle"@)
    } else if button_index == 4 {
        Some("wheel_up"@)
    } else if button_index == 5 {
        Some("wheel_down"@)
    } else if button_index == 6 {
        Some("wheel_left"@)
    } else if button_index == 7 {
        Some("wheel_right"@)
    } else {
        None
    }
}

/// The trigger name of a mouse button: `double_` before the button's name
/// for a double click, and `_click` behind it for the three buttons that
/// click.
pub open spec fn mouse_button_name_of(button_index: int, double_click: bool) -> Option<Seq<char>> {
    match button_name_of(button_index) {
        Some(name) => Some(
            (if double_click {
                "double_"@
            } else {
                Seq::<char>::empty()
            }) + name + (if button_index <= 3 {
                "_click"@
            } else {
                Seq::<char>::empty()
            }),
        ),
        None => None,
    }
}

/// The name of the mouse button with the given index.
fn button_name(button_index: i32) -> (r: Option<&'static str>)
    ensures
        r is Some == button_name_of(button_index as int) is Some,
        r matches Some(n) ==> button_name_of(button_index as int) == Some(n@),
{
    match button_index {
        1 => Some("left"),
        2 => Some("right"),
        3 => Some("middle"),
        4 => Some("wheel_up"),
        5 => Some("wheel_down"),
        6 => Some("wheel_left"),
        7 => Some("wheel_right"),
        _ => None,
    }
}

/// The trigger name of the mouse button with the given index; `None` for an
/// index that is no button's.
pub fn mouse_button_str_from_code(button_index: i32, double_click: bool) -> (r: Option<String>)
    ensures
        r is Some == mouse_button_name_of(button_index as int, double_click) is Some,
        r matches Some(s) ==> mouse_button_name_of(button_index as int, double_click) == Some(s@),
{
    match button_name(button_index) {
        Some(name) => {
            let mut s = String::new();
            if double_click {
                s.append("double_");
            }
            assert(s@ =~= (if double_click {
                "double_"@
            } else {
                Seq::<char>::empty()
            }));
            s.append(name);
            if button_index <= 3 {
                s.append("_click");
            }
            assert(s@ =~= mouse_button_name_of(button_index as int, double_click)->0);
            Some(s)
        },
        None => None,
    }
}

/// The symbolic name of a key code, where it has one.
pub open spec fn named_key_of(code: int) -> Option<Seq<char>> {
    if code == 8 {
        Some("backspace"@)
    } else if code == 9 {
        Some("tab"@)
    } else if code == 13 {
        Some("enter"@)
    } else if code == 27 {
        Some("escape"@)
    } else if code == 32 {
        Some("space"@)
    } else if code == 127 {
        Some("delete"@)
    } else if code == 256 {
        Some("left"@)
    } else if code == 257 {
        Some("right"@)
    } else if code == 258 {
        Some("up"@)
    } else if code == 259 {
        Some("down"@)
    } else if code == 260 {
        Some("page_up"@)
    } else if code == 261 {
        Some("page_down"@)
    } else if code == 262 {
        Some("home"@)
    } else if code == 263 {
        Some("end"@)
    } else if code == 264 {
        Some("insert"@)
    } else if code == 265 {
        Some("f1"@)
    } else if code == 266 {
        Some("f2"@)
    } else if code == 267 {
        Some("f3"@)
    } else if code == 268 {
        Some("f4"@)
    } else if code == 269 {
        Some("f5"@)
    } else if code == 270 {
        Some("f6"@)
    } else if code == 271 {
        Some("f7"@)
    } else if code == 272 {
        Some("f8"@)
    } else if code == 273 {
        Some("f9"@)
    } else if code == 274 {
        Some("f10"@)
    } else if code == 275 {
        Some("f11"@)
    } else if code == 276 {
        Some("f12"@)
    } else {
        None
    }
}

/// The name of a key code: its symbolic name where it has one, the
/// character itself for printable ASCII, and the empty text for every other
/// code.
pub open spec fn key_name_of(code: int) -> Seq<char> {
    match named_key_of(code) {
        Some(name) => name,
        None => if 32 <= code <= 126 {
            seq![code as u8 as char]
        } else {
            Seq::<char>::empty()
        },
    }
}

/// The symbolic name of a key code, where it has one.
fn named_key(code: i32) -> (r: Option<&'static str>)
    ensures
        r is Some == named_key_of(code as int) is Some,
        r matches Some(n) ==> named_key_of(code as int) == Some(n@),
{
    match code {
        8 => Some("backspace"),
        9 => Some("tab"),
        13 => Some("enter"),
        27 => Some("escape"),
        32 => Some("space"),
        127 => Some("delete"),
        256 => Some("left"),
        257 => Some("right"),
        258 => Some("up"),
        259 => Some("down"),
        260 => Some("page_up"),
        261 => Some("page_down"),
        262 => Some("home"),
        263 => Some("end"),
        264 => Some("insert"),
        265 => Some("f1"),
        266 => Some("f2"),
        267 => Some("f3"),
        268 => Some("f4"),
        269 => Some("f5"),
        270 => Some("f6"),
        271 => Some("f7"),
        272 => Some("f8"),
        273 => Some("f9"),
        274 => Some("f10"),
        275 => Some("f11"),
        276 => Some("f12"),
        _ => None,
    }
}

/// The name of a key code.
pub fn key_name(code: i32) -> (r: String)
    ensures
        r@ == key_name_of(code as int),
{
    match named_key(code) {
        Some(name) => name.to_owned(),
        None => {
            let mut s = String::new();
            if 32 <= code && code <= 126 {
                s.push(code as u8 as char);
                assert(s@ =~= seq![code as u8 as char]);
            }
            s
        },
    }
}

/// The code that counts among the three of a key event: the first of key
/// code, physical key code and Unicode code that is there and not zero.
pub open spec fn chosen_code_of(
    keycode: Option<i32>,
    physical_keycode: Option<i32>,
    unicode: Option<i32>,
) -> Option<i32> {
    if keycode is Some && keycode->0 != 0 {
        keycode
    } else if physical_keycode is Some && physical_keycode->0 != 0 {
        physical_keycode
    } else if unicode is Some && unicode->0 != 0 {
        unicode
    } else {
        None
    }
}

/// The name of the key of a key event, from its three codes.
pub open spec fn key_of_codes(
    keycode: Option<i32>,
    physical_keycode: Option<i32>,
    unicode: Option<i32>,
) -> Option<Seq<char>> {
    match chosen_code_of(keycode, physical_keycode, unicode) {
        Some(code) => Some(key_name_of(code as int)),
        None => None,
    }
}

/// The name of the key of a key event: that of its key code, else of its
/// physical key code, else of its Unicode code, a code of zero counting as
/// absent. `None` where all three are absent.
pub fn key_str_from_codes(
    keycode: Option<i32>,
    physical_keycode: Option<i32>,
    unicode: Option<i32>,
) -> (r: Option<String>)
    ensures
        r is Some == key_of_codes(keycode, physical_keycode, unicode) is Some,
        r matches Some(s) ==> key_of_codes(keycode, physical_keycode, unicode) == Some(s@),
{
    if let Some(code) = keycode {
        if code != 0 {
            return Some(key_name(code));
        }
    }
    if let Some(code) = physical_keycode {
        if code != 0 {
            return Some(key_name(code));
        }
    }
    if let Some(code) = unicode {
        if code != 0 {
            return Some(key_name(code));
        }
    }
    None
}

/// The integer property `name` of the event, if it has one.
pub open spec fn int_property_of(ev: InputEventView, name: Seq<char>) -> Option<i32> {
    if map_of(ev.ints).dom().contains(name) {
        Some(map_of(ev.ints)[name])
    } else {
        None
    }
}

/// The boolean property `name` of the event, if it has one.
pub open spec fn bool_property_of(ev: InputEventView, name: Seq<char>) -> Option<bool> {
    if map_of(ev.bools).dom().contains(name) {
        Some(map_of(ev.bools)[name])
    } else {
        None
    }
}

/// The prefix that a modifier contributes: `word` where the integer property
/// `name` is exactly one, nothing otherwise.
pub open spec fn modifier_of(ev: InputEventView, name: Seq<char>, word: Seq<char>) -> Seq<char> {
    if int_property_of(ev, name) == Some(1i32) {
        word
    } else {
        Seq::<char>::empty()
    }
}

/// The name of the key or button of the event: of its key for a key event,
/// of its button for a mouse-button event, none for another event.
pub open spec fn trigger_name_of(ev: InputEventView) -> Option<Seq<char>> {
    if ev.event_type == "InputEventKey"@ {
        key_of_codes(
            int_property_of(ev, "keycode"@),
            int_property_of(ev, "physical_keycode"@),
            int_property_of(ev, "unicode"@),
        )
    } else if ev.event_type == "InputEventMouseButton"@ {
        mouse_button_name_of(
            match int_property_of(ev, "button_index"@) {
                Some(i) => i as int,
                None => 8,
            },
            match bool_property_of(ev, "double_click"@) {
                Some(b) => b,
                None => false,
            },
        )
    } else {
        None
    }
}

/// The trigger string of the event: `ctrl+`, `shift+` and `alt+`, each
/// where its modifier is pressed, and then the name of the key or button,
/// or nothing where the event has none.
pub open spec fn key_string_of(ev: InputEventView) -> Seq<char> {
    modifier_of(ev, "ctrl_pressed"@, "ctrl+"@) + modifier_of(ev, "shift_pressed"@, "shift+"@)
        + modifier_of(ev, "alt_pressed"@, "alt+"@) + (match trigger_name_of(ev) {
        Some(name) => name,
        None => Seq::<char>::empty(),
    })
}

impl InputEvent {
    /// The integer property `name` of the event, if it has one.
    fn int_property(&self, name: &str) -> (r: Option<i32>)
        ensures
            r == int_property_of(self@, name@),
    {
        match self.int_properties.get(name) {
            Some(v) => Some(*v),
            None => None,
        }
    }

    /// The boolean property `name` of the event, if it has one.
    fn bool_property(&self, name: &str) -> (r: Option<bool>)
        ensures
            r == bool_property_of(self@, name@),
    {
        match self.bool_properties.get(name) {
            Some(v) => Some(*v),
            None => None,
        }
    }

    /// The name of the key or button of the event.
    fn trigger_name(&self) -> (r: Option<String>)
        ensures
            r is Some == trigger_name_of(self@) is Some,
            r matches Some(s) ==> trigger_name_of(self@) == Some(s@),
    {
        if str_eq(self.event_type.as_str(), "InputEventKey") {
            key_str_from_codes(
                self.int_property("keycode"),
                self.int_property("physical_keycode"),
                self.int_property("unicode"),
            )
        } else if str_eq(self.event_type.as_str(), "InputEventMouseButton") {
            let index = match self.int_property("button_index") {
                Some(i) => i,
                None => 8,
            };
            let double = match self.bool_property("double_click") {
                Some(b) => b,
                None => false,
            };
            mouse_button_str_from_code(index, double)
        } else {
            None
        }
    }

    /// The trigger string of the event. It is always there; for an event
    /// without a key or button it holds the modifiers alone.
    pub fn get_key_string(&self) -> (r: Option<String>)
        ensures
            r is Some,
            r->0@ == key_string_of(self@),
    {
        let mut s = String::new();
        if self.int_property("ctrl_pressed") == Some(1) {
            s.append("ctrl+");
        }
        assert(s@ =~= modifier_of(self@, "ctrl_pressed"@, "ctrl+"@));
        if self.int_property("shift_pressed") == Some(1) {
            s.append("shift+");
        }
        if self.int_property("alt_pressed") == Some(1) {
            s.append("alt+");
        }
        match self.trigger_name() {
            Some(name) => {
                s.append(name.as_str());
            },
            None => {},
        }
        assert(s@ =~= key_string_of(self@));
        Some(s)
    }
}

} // verus!
