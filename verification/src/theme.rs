//! The theme registry: which flavor an icon has, and the two colors of each
//! flavor.

use crate::color::{chars_of, parse_color_at, parse_color_spec};
use vstd::prelude::*;

verus! {

/// The two ends of a flavor's color scale.
#[derive(Clone, Copy, Debug, PartialEq, Eq)]
pub struct ColorPair {
    pub shade: (u8, u8, u8),
    pub tint: (u8, u8, u8),
}

/// Why an icon's colors could not be had from the registry.
#[derive(Clone, Copy, Debug, PartialEq, Eq, Structural)]
pub enum ThemeError {
    /// The icon names a flavor that the registry does not hold.
    UnknownFlavor,
    /// The flavor has fewer than two colors, or one of the first two is not
    /// a `#` and three or six hex digits.
    MalformedColor,
}

/// Flavors by key and icons by name. Each list is read as a map: the first
/// entry with a key is the one that counts.
#[derive(Debug)]
pub struct ThemeRegistry {
    /// For each flavor key the flavor's colors: the shade, the tint, and
    /// whatever follows.
    pub flavors: Vec<(String, Vec<String>)>,
    /// For each icon name the key of its flavor.
    pub icons: Vec<(String, String)>,
}

/// What a registry holds.
pub struct RegistryModel {
    pub flavors: Seq<(Seq<char>, Seq<Seq<char>>)>,
    pub icons: Seq<(Seq<char>, Seq<char>)>,
}

/// Index of the first of `keys` that equals `key`, or the length of `keys`
/// where none does.
pub open spec fn first_index(keys: Seq<Seq<char>>, key: Seq<char>) -> int
    decreases keys.len(),
{
    if keys.len() == 0 {
        0
    } else if keys[0] == key {
        0
    } else {
        1 + first_index(keys.drop_first(), key)
    }
}

/// The value that `entries`, read as a map, gives to `key`.
pub open spec fn lookup<V>(entries: Seq<(Seq<char>, V)>, key: Seq<char>) -> Option<V> {
    let i = first_index(Seq::new(entries.len(), |k: int| entries[k].0), key);
    if i < entries.len() {
        Some(entries[i].1)
    } else {
        None
    }
}

/// The color that a registry entry denotes: a `#` and three or six hex
/// digits.
pub open spec fn endpoint_spec(text: Seq<char>) -> Option<(u8, u8, u8)> {
    if text.len() > 0 && text[0] == '#' {
        parse_color_spec(text.subrange(1, text.len() as int))
    } else {
        None
    }
}

/// The colors of a flavor: its first entry is the shade, its second the
/// tint.
pub open spec fn pair_of(colors: Seq<Seq<char>>) -> Result<ColorPair, ThemeError> {
    if colors.len() >= 2 && endpoint_spec(colors[0]) is Some && endpoint_spec(colors[1]) is Some {
        Ok(ColorPair { shade: endpoint_spec(colors[0])->0, tint: endpoint_spec(colors[1])->0 })
    } else {
        Err(ThemeError::MalformedColor)
    }
}

impl RegistryModel {
    /// The colors of the icon called `icon`: none where the registry does
    /// not know the icon, an error where it knows the icon but not its
    /// flavor, or not the flavor's colors.
    pub open spec fn color_pair(self, icon: Seq<char>) -> Option<Result<ColorPair, ThemeError>> {
        match lookup(self.icons, icon) {
            None => None,
            Some(key) => Some(
                match lookup(self.flavors, key) {
                    None => Err(ThemeError::UnknownFlavor),
                    Some(colors) => pair_of(colors),
                },
            ),
        }
    }
}

impl View for ThemeRegistry {
    type V = RegistryModel;

    open spec fn view(&self) -> RegistryModel {
        RegistryModel {
            flavors: Seq::new(
                self.flavors@.len(),
                |i: int|
                    (
                        self.flavors@[i].0@,
                        Seq::new(self.flavors@[i].1@.len(), |k: int| self.flavors@[i].1@[k]@),
                    ),
            ),
            icons: Seq::new(self.icons@.len(), |i: int| (self.icons@[i].0@, self.icons@[i].1@)),
        }
    }
}

/// Index of the first of `entries` whose key is `key`.
pub fn find_key<V>(entries: &Vec<(String, V)>, key: &String) -> (r: Option<usize>)
    ensures
        match r {
            Some(i) => i < entries.len() && i == first_index(
                Seq::new(entries@.len(), |k: int| entries@[k].0@),
                key@,
            ),
            None => first_index(Seq::new(entries@.len(), |k: int| entries@[k].0@), key@)
                == entries.len(),
        },
{
    let ghost keys = Seq::new(entries@.len(), |k: int| entries@[k].0@);
    let mut i: usize = 0;
    assert(keys.skip(0) =~= keys);
    while i < entries.len()
        invariant
            i <= entries.len(),
            keys == Seq::new(entries@.len(), |k: int| entries@[k].0@),
            first_index(keys, key@) == i + first_index(keys.skip(i as int), key@),
        decreases entries.len() - i,
    {
        assert(keys.skip(i as int)[0] == entries[i as int].0@);
        assert(keys.skip(i as int).drop_first() =~= keys.skip(i + 1));
        if entries[i].0 == *key {
            return Some(i);
        }
        i += 1;
    }
    None
}

/// Reads a registry color: a `#` and three or six hex digits.
pub fn parse_endpoint(text: &str) -> (r: Option<(u8, u8, u8)>)
    ensures
        r == endpoint_spec(text@),
{
    let chars = chars_of(text);
    let n = chars.len();
    if n == 0 || chars[0] != '#' {
        return None;
    }
    if n == 4 || n == 7 {
        parse_color_at(&chars, 1, n - 1)
    } else {
        None
    }
}

impl ThemeRegistry {
    /// A registry without flavors or icons.
    pub fn new() -> (r: ThemeRegistry)
        ensures
            r@.flavors.len() == 0,
            r@.icons.len() == 0,
    {
        ThemeRegistry { flavors: Vec::new(), icons: Vec::new() }
    }

    /// Whether the registry knows an icon called `icon`.
    pub fn has_icon(&self, icon: &String) -> (r: bool)
        ensures
            r == (lookup(self@.icons, icon@) is Some),
    {
        assert(Seq::new(self.icons@.len(), |k: int| self.icons@[k].0@) =~= Seq::new(
            self@.icons.len(),
            |k: int| self@.icons[k].0,
        ));
        find_key(&self.icons, icon).is_some()
    }

    /// The colors of the icon called `icon`.
    pub fn color_pair(&self, icon: &String) -> (r: Option<Result<ColorPair, ThemeError>>)
        ensures
            r == self@.color_pair(icon@),
    {
        assert(Seq::new(self.icons@.len(), |k: int| self.icons@[k].0@) =~= Seq::new(
            self@.icons.len(),
            |k: int| self@.icons[k].0,
        ));
        assert(Seq::new(self.flavors@.len(), |k: int| self.flavors@[k].0@) =~= Seq::new(
            self@.flavors.len(),
            |k: int| self@.flavors[k].0,
        ));
        let i = match find_key(&self.icons, icon) {
            Some(i) => i,
            None => {
                return None;
            },
        };
        let f = match find_key(&self.flavors, &self.icons[i].1) {
            Some(f) => f,
            None => {
                return Some(Err(ThemeError::UnknownFlavor));
            },
        };
        let colors = &self.flavors[f].1;
        assert(self@.flavors[f as int].1 =~= Seq::new(colors@.len(), |k: int| colors@[k]@));
        if colors.len() < 2 {
            return Some(Err(ThemeError::MalformedColor));
        }
        let shade = parse_endpoint(colors[0].as_str());
        let tint = parse_endpoint(colors[1].as_str());
        match (shade, tint) {
            (Some(shade), Some(tint)) => Some(Ok(ColorPair { shade, tint })),
            _ => Some(Err(ThemeError::MalformedColor)),
        }
    }
}

} // verus!
