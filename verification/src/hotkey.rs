//! Global hotkey strings such as `Ctrl+Shift+F9`: the keys and modifiers
//! they may name, and parsing them.

use vstd::prelude::*;
use crate::text::{owned, push_str, str_eq};
use crate::textscan::{trim, trim_str, split, split_str, lemma_split_nonempty};

verus! {

/// A key a hotkey can use.
#[derive(Debug, Clone, Copy, PartialEq, Eq, Structural)]
pub enum KeyCode {
    KeyA,
    KeyB,
    KeyC,
    KeyD,
    KeyE,
    KeyF,
    KeyG,
    KeyH,
    KeyI,
    KeyJ,
    KeyK,
    KeyL,
    KeyM,
    KeyN,
    KeyO,
    KeyP,
    KeyQ,
    KeyR,
    KeyS,
    KeyT,
    KeyU,
    KeyV,
    KeyW,
    KeyX,
    KeyY,
    KeyZ,
    Digit0,
    Digit1,
    Digit2,
    Digit3,
    Digit4,
    Digit5,
    Digit6,
    Digit7,
    Digit8,
    Digit9,
    F1,
    F2,
    F3,
    F4,
    F5,
    F6,
    F7,
    F8,
    F9,
    F10,
    F11,
    F12,
    Space,
    Tab,
    Escape,
    Backspace,
    Backslash,
    Enter,
    Insert,
    Delete,
    Home,
    End,
    PageUp,
    PageDown,
    ArrowUp,
    ArrowDown,
    ArrowLeft,
    ArrowRight,
}

/// The key names a hotkey string may use (aliases included), in the order
/// they are tried.
pub const KEY_NAMES: [(&'static str, KeyCode); 67] = [
    ("A", KeyCode::KeyA),
    ("B", KeyCode::KeyB),
    ("C", KeyCode::KeyC),
    ("D", KeyCode::KeyD),
    ("E", KeyCode::KeyE),
    ("F", KeyCode::KeyF),
    ("G", KeyCode::KeyG),
    ("H", KeyCode::KeyH),
    ("I", KeyCode::KeyI),
    ("J", KeyCode::KeyJ),
    ("K", KeyCode::KeyK),
    ("L", KeyCode::KeyL),
    ("M", KeyCode::KeyM),
    ("N", KeyCode::KeyN),
    ("O", KeyCode::KeyO),
    ("P", KeyCode::KeyP),
    ("Q", KeyCode::KeyQ),
    ("R", KeyCode::KeyR),
    ("S", KeyCode::KeyS),
    ("T", KeyCode::KeyT),
    ("U", KeyCode::KeyU),
    ("V", KeyCode::KeyV),
    ("W", KeyCode::KeyW),
    ("X", KeyCode::KeyX),
    ("Y", KeyCode::KeyY),
    ("Z", KeyCode::KeyZ),
    ("0", KeyCode::Digit0),
    ("1", KeyCode::Digit1),
    ("2", KeyCode::Digit2),
    ("3", KeyCode::Digit3),
    ("4", KeyCode::Digit4),
    ("5", KeyCode::Digit5),
    ("6", KeyCode::Digit6),
    ("7", KeyCode::Digit7),
    ("8", KeyCode::Digit8),
    ("9", KeyCode::Digit9),
    ("F1", KeyCode::F1),
    ("F2", KeyCode::F2),
    ("F3", KeyCode::F3),
    ("F4", KeyCode::F4),
    ("F5", KeyCode::F5),
    ("F6", KeyCode::F6),
    ("F7", KeyCode::F7),
    ("F8", KeyCode::F8),
    ("F9", KeyCode::F9),
    ("F10", KeyCode::F10),
    ("F11", KeyCode::F11),
    ("F12", KeyCode::F12),
    ("Space", KeyCode::Space),
    ("Tab", KeyCode::Tab),
    ("Escape", KeyCode::Escape),
    ("Esc", KeyCode::Escape),
    ("Backspace", KeyCode::Backspace),
    ("\\", KeyCode::Backslash),
    ("Backslash", KeyCode::Backslash),
    ("Enter", KeyCode::Enter),
    ("Return", KeyCode::Enter),
    ("Insert", KeyCode::Insert),
    ("Delete", KeyCode::Delete),
    ("Home", KeyCode::Home),
    ("End", KeyCode::End),
    ("PageUp", KeyCode::PageUp),
    ("PageDown", KeyCode::PageDown),
    ("Up", KeyCode::ArrowUp),
    ("Down", KeyCode::ArrowDown),
    ("Left", KeyCode::ArrowLeft),
    ("Right", KeyCode::ArrowRight),
];

/// The key a name stands for: the first row of the table with that name.
pub open spec fn key_find(t: Seq<(&'static str, KeyCode)>, name: Seq<char>) -> Option<KeyCode>
    decreases t.len(),
{
    if t.len() == 0 {
        None
    } else if t[0].0@ == name {
        Some(t[0].1)
    } else {
        key_find(t.drop_first(), name)
    }
}

/// The key a name stands for.
pub open spec fn key_code_of(name: Seq<char>) -> Option<KeyCode> {
    key_find(KEY_NAMES@, name)
}

/// Look a key name up.
pub fn parse_key_code(s: &str) -> (r: Option<KeyCode>)
    ensures
        r == key_code_of(s@),
{
    let mut i: usize = 0;
    assert(KEY_NAMES@.skip(0) =~= KEY_NAMES@);
    while i < KEY_NAMES.len()
        invariant
            i <= KEY_NAMES@.len(),
            key_find(KEY_NAMES@, s@) == key_find(KEY_NAMES@.skip(i as int), s@),
        decreases KEY_NAMES@.len() - i,
    {
        assert(KEY_NAMES@.skip(i as int).drop_first() =~= KEY_NAMES@.skip(i + 1));
        if str_eq(KEY_NAMES[i].0, s) {
            return Some(KEY_NAMES[i].1);
        }
        i = i + 1;
    }
    None
}

/// The modifier keys of a hotkey.
#[derive(Debug, Clone, Copy, PartialEq, Eq, Structural)]
pub struct Modifiers {
    pub control: bool,
    pub alt: bool,
    pub shift: bool,
    pub meta: bool,
}

/// A parsed hotkey.
#[derive(Debug, Clone, Copy, PartialEq, Eq, Structural)]
pub struct Shortcut {
    pub modifiers: Modifiers,
    pub key: KeyCode,
}

/// No modifier.
pub open spec fn no_modifiers() -> Modifiers {
    Modifiers { control: false, alt: false, shift: false, meta: false }
}

/// The modifiers with one more, named `m`; `None` for an unknown name.
pub open spec fn with_modifier(mods: Modifiers, m: Seq<char>) -> Option<Modifiers> {
    if m == "Ctrl"@ || m == "Control"@ {
        Some(Modifiers { control: true, ..mods })
    } else if m == "Alt"@ {
        Some(Modifiers { alt: true, ..mods })
    } else if m == "Shift"@ {
        Some(Modifiers { shift: true, ..mods })
    } else if m == "Meta"@ || m == "Win"@ || m == "Super"@ {
        Some(Modifiers { meta: true, ..mods })
    } else {
        None
    }
}

/// The modifiers named in order, or the first unknown name.
pub open spec fn modifiers_of(ms: Seq<Seq<char>>) -> Result<Modifiers, Seq<char>>
    decreases ms.len(),
{
    if ms.len() == 0 {
        Ok(no_modifiers())
    } else {
        match modifiers_of(ms.drop_last()) {
            Ok(mods) => match with_modifier(mods, ms.last()) {
                Some(m2) => Ok(m2),
                None => Err(ms.last()),
            },
            Err(e) => Err(e),
        }
    }
}

/// The `+`-separated parts of a hotkey string, trimmed.
pub open spec fn hotkey_parts(s: Seq<char>) -> Seq<Seq<char>> {
    split(s, '+').map_values(|p: Seq<char>| trim(p))
}

/// A hotkey string read: the last part is the key, the ones before it the
/// modifiers; an error for a missing or unknown key, then for an unknown
/// modifier.
pub open spec fn hotkey_of(s: Seq<char>) -> Result<Shortcut, Seq<char>> {
    let parts = hotkey_parts(s);
    let key = parts.last();
    if key.len() == 0 {
        Err("缺少按键，格式应为 Mod+Key 或 Key"@)
    } else {
        match key_code_of(key) {
            None => Err("未知按键: "@ + key),
            Some(k) => match modifiers_of(parts.drop_last()) {
                Ok(mods) => Ok(Shortcut { modifiers: mods, key: k }),
                Err(m) => Err("未知修饰键: "@ + m),
            },
        }
    }
}

fn add_modifier(mods: Modifiers, m: &str) -> (r: Option<Modifiers>)
    ensures
        r == with_modifier(mods, m@),
{
    if str_eq(m, "Ctrl") || str_eq(m, "Control") {
        Some(Modifiers { control: true, ..mods })
    } else if str_eq(m, "Alt") {
        Some(Modifiers { alt: true, ..mods })
    } else if str_eq(m, "Shift") {
        Some(Modifiers { shift: true, ..mods })
    } else if str_eq(m, "Meta") || str_eq(m, "Win") || str_eq(m, "Super") {
        Some(Modifiers { meta: true, ..mods })
    } else {
        None
    }
}

/// Parse a hotkey string such as `Ctrl+Shift+F9`.
pub fn parse_hotkey_string(s: &str) -> (r: Result<Shortcut, String>)
    ensures
        match hotkey_of(s@) {
            Ok(sc) => r == Ok::<Shortcut, String>(sc),
            Err(e) => r matches Err(x) && x@ == e,
        },
{
    let raw = split_str(s, '+');
    proof {
        lemma_split_nonempty(s@, '+');
    }
    let ghost pv = hotkey_parts(s@);
    let mut parts: Vec<String> = Vec::new();
    let mut i: usize = 0;
    while i < raw.len()
        invariant
            pv == hotkey_parts(s@),
            raw@.len() == split(s@, '+').len(),
            forall|j: int| 0 <= j < raw@.len() ==> #[trigger] raw@[j]@ == split(s@, '+')[j],
            i <= raw@.len(),
            parts@.len() == i,
            forall|j: int| 0 <= j < i ==> #[trigger] parts@[j]@ == pv[j],
        decreases raw@.len() - i,
    {
        parts.push(trim_str(raw[i].as_str()));
        i = i + 1;
    }
    let last = parts.len() - 1;
    let key_str = parts[last].as_str();
    if key_str.is_empty() {
        return Err(owned("缺少按键，格式应为 Mod+Key 或 Key"));
    }
    let key = match parse_key_code(key_str) {
        Some(k) => k,
        None => {
            let mut m = owned("未知按键: ");
            push_str(&mut m, key_str);
            return Err(m);
        },
    };
    let ghost ms = pv.drop_last();
    let mut mods = Modifiers { control: false, alt: false, shift: false, meta: false };
    let mut k: usize = 0;
    assert(ms.take(0) =~= Seq::<Seq<char>>::empty());
    while k < last
        invariant
            last == parts@.len() - 1,
            ms == pv.drop_last(),
            forall|j: int| 0 <= j < parts@.len() ==> #[trigger] parts@[j]@ == pv[j],
            parts@.len() == pv.len(),
            k <= last,
            modifiers_of(ms.take(k as int)) == Ok::<Modifiers, Seq<char>>(mods),
            hotkey_of(s@) == match modifiers_of(ms) {
                Ok(m) => Ok::<Shortcut, Seq<char>>(Shortcut { modifiers: m, key }),
                Err(m) => Err("未知修饰键: "@ + m),
            },
        decreases last - k,
    {
        assert(ms.take(k + 1).drop_last() =~= ms.take(k as int));
        assert(ms.take(k + 1).last() == parts@[k as int]@);
        match add_modifier(mods, parts[k].as_str()) {
            Some(m2) => {
                mods = m2;
            },
            None => {
                proof {
                    lemma_modifiers_err_prefix(ms, k + 1);
                }
                let mut e = owned("未知修饰键: ");
                push_str(&mut e, parts[k].as_str());
                return Err(e);
            },
        }
        k = k + 1;
    }
    assert(ms.take(k as int) =~= ms);
    Ok(Shortcut { modifiers: mods, key })
}

/// An unknown modifier in a prefix is the first unknown one of the whole.
proof fn lemma_modifiers_err_prefix(ms: Seq<Seq<char>>, n: int)
    requires
        0 <= n <= ms.len(),
        modifiers_of(ms.take(n)) is Err,
    ensures
        modifiers_of(ms) == modifiers_of(ms.take(n)),
    decreases ms.len() - n,
{
    if n < ms.len() {
        assert(ms.take(n + 1).drop_last() =~= ms.take(n));
        lemma_modifiers_err_prefix(ms, n + 1);
    } else {
        assert(ms.take(n) =~= ms);
    }
}

} // verus!
