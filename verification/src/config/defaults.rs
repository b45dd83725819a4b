//! Keybinds, panel colors and the color palette, with their defaults.
use vstd::prelude::*;
use vstd::string::*;

use crate::text::{
    decimal, push_char, push_decimal, push_str, sorted_unique, string_views, strictly_sorted,
};

verus! {

/// The number of configurable keybinds.
pub const KEYBIND_COUNT: usize = 9;

/// The number of configurable panel colors.
pub const PANEL_COLOR_COUNT: usize = 4;

/// The number of entries in the color picker.
pub const PALETTE_LEN: usize = 19;

/// The key that selects each panel, quits, or opens the configuration.
#[derive(Debug, Clone, Copy, PartialEq, Eq, Structural)]
pub struct Keybinds {
    pub quit: char,
    pub system: char,
    pub processor: char,
    pub graphics: char,
    pub disk: char,
    pub processes: char,
    pub memory: char,
    pub network: char,
    pub config: char,
}

/// The names of the keybinds, in binding order.
pub open spec fn binding_names() -> Seq<Seq<char>> {
    seq![
        "quit"@,
        "system"@,
        "processor"@,
        "graphics"@,
        "disk"@,
        "processes"@,
        "memory"@,
        "network"@,
        "config"@,
    ]
}

/// Whether `key` is bound at a position of `keys` other than `index`.
pub open spec fn key_taken(keys: Seq<char>, index: int, key: char) -> bool {
    exists|j: int| 0 <= j < keys.len() && j != index && keys[j] == key
}

/// Whether the key at position `i` is also bound at another position.
pub open spec fn is_duplicated(keys: Seq<char>, i: int) -> bool {
    key_taken(keys, i, keys[i])
}

/// Whether position `i` holds the first occurrence of its key.
pub open spec fn is_first_occurrence(keys: Seq<char>, i: int) -> bool {
    forall|j: int| 0 <= j < i ==> keys[j] != keys[i]
}

/// The positions, among the first `n`, at which a key that is bound more than
/// once occurs for the first time, in increasing order.
pub open spec fn conflict_positions(keys: Seq<char>, n: nat) -> Seq<int>
    decreases n,
{
    if n == 0 {
        Seq::empty()
    } else {
        let earlier = conflict_positions(keys, (n - 1) as nat);
        if is_first_occurrence(keys, n - 1) && is_duplicated(keys, n - 1) {
            earlier.push(n - 1)
        } else {
            earlier
        }
    }
}

/// Whether `name` is the name of a keybind whose key is `key`.
pub open spec fn names_key(keys: Seq<char>, key: char, name: Seq<char>) -> bool {
    exists|j: int| 0 <= j < keys.len() && keys[j] == key && binding_names()[j] == name
}

/// Whether some entry of `errors` is about key `k`.
pub open spec fn key_reported(errors: Seq<(char, Vec<String>)>, k: char) -> bool {
    exists|t: int| 0 <= t < errors.len() && (#[trigger] errors[t]).0 == k
}

/// Whether key `k` is bound, before position `n`, at a position whose key is
/// bound more than once.
pub open spec fn duplicated_before(keys: Seq<char>, n: int, k: char) -> bool {
    exists|j: int| 0 <= j < n && keys[j] == k && #[trigger] is_duplicated(keys, j)
}

/// Whether `entry` reports the conflict of the key first bound at position
/// `pos`: it holds that key, and the names of all keybinds bound to it, each
/// once, in increasing order.
pub open spec fn reports_conflict_at(keys: Seq<char>, entry: (char, Vec<String>), pos: int) -> bool {
    &&& entry.0 == keys[pos]
    &&& strictly_sorted(string_views(entry.1@))
    &&& forall|name: Seq<char>|
        #![trigger string_views(entry.1@).contains(name)]
        string_views(entry.1@).contains(name) <==> names_key(keys, keys[pos], name)
}

/// Whether `errors` reports, in order, the conflicts among the first `n`
/// keybinds, one entry per key that is bound more than once, placed where the
/// key first occurs.
pub open spec fn reports_conflicts(keys: Seq<char>, errors: Seq<(char, Vec<String>)>, n: nat) -> bool {
    let positions = conflict_positions(keys, n);
    &&& errors.len() == positions.len()
    &&& forall|t: int| 0 <= t < positions.len() ==> reports_conflict_at(keys, #[trigger] errors[t], positions[t])
}

impl Keybinds {
    /// The keys in binding order: quit, system, processor, graphics, disk,
    /// processes, memory, network, config.
    pub open spec fn keys(self) -> Seq<char> {
        seq![
            self.quit,
            self.system,
            self.processor,
            self.graphics,
            self.disk,
            self.processes,
            self.memory,
            self.network,
            self.config,
        ]
    }

    /// These keybinds with the key at position `index` replaced by `key`.
    pub open spec fn with_key(self, index: int, key: char) -> Keybinds {
        if index == 0 {
            Keybinds { quit: key, ..self }
        } else if index == 1 {
            Keybinds { system: key, ..self }
        } else if index == 2 {
            Keybinds { processor: key, ..self }
        } else if index == 3 {
            Keybinds { graphics: key, ..self }
        } else if index == 4 {
            Keybinds { disk: key, ..self }
        } else if index == 5 {
            Keybinds { processes: key, ..self }
        } else if index == 6 {
            Keybinds { memory: key, ..self }
        } else if index == 7 {
            Keybinds { network: key, ..self }
        } else {
            Keybinds { config: key, ..self }
        }
    }

    /// Whether no key is bound twice.
    pub open spec fn conflict_free(self) -> bool {
        forall|i: int| 0 <= i < KEYBIND_COUNT ==> !is_duplicated(self.keys(), i)
    }

    pub open spec fn spec_default() -> Keybinds {
        Keybinds {
            quit: 'q',
            system: 's',
            processor: 'c',
            graphics: 'g',
            disk: 'd',
            processes: 'p',
            memory: 'm',
            network: 'n',
            config: 'z',
        }
    }

    /// The message of the error that `set` gives for an index out of range.
    pub open spec fn invalid_index_message(index: nat) -> Seq<char> {
        "invalid keybind index: "@ + decimal(index)
    }

    /// The message of the error that `set` gives for a key bound elsewhere.
    pub open spec fn in_use_message(key: char) -> Seq<char> {
        seq!['\'', key] + "' is already in use"@
    }

    /// Binds `key` at position `index`, unless the index is out of range or
    /// the key is already bound at another position.
    pub fn set(&mut self, index: usize, key: char) -> (r: Result<(), String>)
        ensures
            index >= KEYBIND_COUNT ==> *final(self) == *old(self)
                && (r matches Err(e) && e@ == Self::invalid_index_message(index as nat)),
            index < KEYBIND_COUNT && key_taken(old(self).keys(), index as int, key)
                ==> *final(self) == *old(self)
                && (r matches Err(e) && e@ == Self::in_use_message(key)),
            index < KEYBIND_COUNT && !key_taken(old(self).keys(), index as int, key) ==> r is Ok
                && final(self).keys() == old(self).keys().update(index as int, key)
                && *final(self) == old(self).with_key(index as int, key),
    {
        if index >= self.len() {
            let mut message = String::from_str("invalid keybind index: ");
            push_decimal(&mut message, index as u64);
            return Err(message);
        }
        let bindings = self.iter();
        let mut other: usize = 0;
        while other < bindings.len()
            invariant
                bindings@.len() == KEYBIND_COUNT,
                forall|i: int| 0 <= i < KEYBIND_COUNT ==> (#[trigger] bindings@[i]).1 == self.keys()[i],
                index < KEYBIND_COUNT,
                other <= KEYBIND_COUNT,
                forall|j: int| 0 <= j < other && j != index ==> self.keys()[j] != key,
            decreases KEYBIND_COUNT - other,
        {
            if other != index && bindings[other].1 == key {
                let mut message = String::new();
                push_char(&mut message, '\'');
                push_char(&mut message, key);
                push_str(&mut message, "' is already in use");
                assert(seq!['\'', key] =~= Seq::<char>::empty().push('\'').push(key));
                return Err(message);
            }
            other = other + 1;
        }
        match index {
            0 => self.quit = key,
            1 => self.system = key,
            2 => self.processor = key,
            3 => self.graphics = key,
            4 => self.disk = key,
            5 => self.processes = key,
            6 => self.memory = key,
            7 => self.network = key,
            _ => self.config = key,
        }
        assert(self.keys() =~= old(self).keys().update(index as int, key));
        Ok(())
    }

    /// The keybinds with their names, in binding order.
    pub fn iter(&self) -> (r: Vec<(&'static str, char)>)
        ensures
            r@.len() == KEYBIND_COUNT,
            forall|i: int| 0 <= i < KEYBIND_COUNT ==> (#[trigger] r@[i]).0@ == binding_names()[i]
                && r@[i].1 == self.keys()[i],
    {
        let mut r: Vec<(&'static str, char)> = Vec::new();
        r.push(("quit", self.quit));
        r.push(("system", self.system));
        r.push(("processor", self.processor));
        r.push(("graphics", self.graphics));
        r.push(("disk", self.disk));
        r.push(("processes", self.processes));
        r.push(("memory", self.memory));
        r.push(("network", self.network));
        r.push(("config", self.config));
        r
    }

    /// Checks that no key is bound twice. Otherwise reports each key that is
    /// bound more than once, in the order of its first binding, with the
    /// names of the keybinds it is bound to.
    pub fn validate(&self) -> (r: Result<(), Vec<(char, Vec<String>)>>)
        ensures
            r is Ok <==> self.conflict_free(),
            r matches Err(errors) ==> reports_conflicts(self.keys(), errors@, KEYBIND_COUNT as nat),
    {
        let ghost keys = self.keys();
        let bindings = self.iter();
        let mut errors: Vec<(char, Vec<String>)> = Vec::new();
        let mut index: usize = 0;
        while index < bindings.len()
            invariant
                bindings@.len() == KEYBIND_COUNT,
                keys == self.keys(),
                forall|i: int| 0 <= i < KEYBIND_COUNT ==> (#[trigger] bindings@[i]).0@ == binding_names()[i]
                    && bindings@[i].1 == keys[i],
                index <= KEYBIND_COUNT,
                reports_conflicts(keys, errors@, index as nat),
                forall|k: char|
                    #[trigger] key_reported(errors@, k) <==> duplicated_before(keys, index as int, k),
            decreases KEYBIND_COUNT - index,
        {
            let name = bindings[index].0;
            let key = bindings[index].1;
            let mut seen = false;
            let mut t: usize = 0;
            while t < errors.len()
                invariant
                    t <= errors@.len(),
                    seen <==> exists|u: int| 0 <= u < t && (#[trigger] errors@[u]).0 == key,
                decreases errors@.len() - t,
            {
                if errors[t].0 == key {
                    seen = true;
                }
                t = t + 1;
            }
            if seen {
                proof {
                    let u = choose|u: int| 0 <= u < t && (#[trigger] errors@[u]).0 == key;
                    assert(key_reported(errors@, key));
                    assert(duplicated_before(keys, index as int, key));
                    let j = choose|j: int| 0 <= j < index && keys[j] == key && #[trigger] is_duplicated(keys, j);
                    assert(keys[j] == keys[index as int]);
                    assert(!is_first_occurrence(keys, index as int));
                    assert(conflict_positions(keys, (index + 1) as nat) == conflict_positions(keys, index as nat));
                    assert forall|k: char|
                        #[trigger] key_reported(errors@, k) <==> duplicated_before(keys, (index + 1) as int, k) by {
                        if duplicated_before(keys, (index + 1) as int, k) {
                            let m = choose|m: int| 0 <= m < index + 1 && keys[m] == k && #[trigger] is_duplicated(keys, m);
                            if m == index {
                                assert(duplicated_before(keys, index as int, k));
                            } else {
                                assert(duplicated_before(keys, index as int, k));
                            }
                        }
                        if key_reported(errors@, k) {
                            assert(duplicated_before(keys, index as int, k));
                            let m = choose|m: int| 0 <= m < index && keys[m] == k && #[trigger] is_duplicated(keys, m);
                            assert(0 <= m < index + 1);
                        }
                    }
                }
            } else {
                proof {
                    assert forall|j: int| 0 <= j < index implies keys[j] != keys[index as int] by {
                        if keys[j] == keys[index as int] {
                            assert(is_duplicated(keys, j)) by {
                                assert(keys[index as int] == keys[j]);
                            }
                            assert(duplicated_before(keys, index as int, key));
                            assert(key_reported(errors@, key));
                            let u = choose|u: int| 0 <= u < errors@.len() && (#[trigger] errors@[u]).0 == key;
                            assert(0 <= u < t);
                        }
                    }
                    assert(is_first_occurrence(keys, index as int));
                }
                let mut names: Vec<String> = Vec::new();
                let mut other: usize = index + 1;
                while other < bindings.len()
                    invariant
                        bindings@.len() == KEYBIND_COUNT,
                        forall|i: int| 0 <= i < KEYBIND_COUNT ==> (#[trigger] bindings@[i]).0@ == binding_names()[i]
                            && bindings@[i].1 == keys[i],
                        index < other <= KEYBIND_COUNT,
                        keys.len() == KEYBIND_COUNT,
                        name@ == binding_names()[index as int],
                        key == keys[index as int],
                        names@.len() > 0 <==> exists|j: int| index < j < other && keys[j] == key,
                        forall|n: Seq<char>|
                            string_views(names@).contains(n) <==> (exists|j: int|
                                index < j < other && keys[j] == key && (n == binding_names()[index as int]
                                    || n == #[trigger] binding_names()[j])),
                    decreases KEYBIND_COUNT - other,
                {
                    if key == bindings[other].1 {
                        let ghost before = string_views(names@);
                        names.push(String::from_str(name));
                        let ghost middle = string_views(names@);
                        names.push(String::from_str(bindings[other].0));
                        proof {
                            let after = string_views(names@);
                            assert(middle =~= before.push(name@));
                            assert(after =~= middle.push(binding_names()[other as int]));
                            assert forall|n: Seq<char>|
                                after.contains(n) <==> (exists|j: int|
                                    index < j < other + 1 && keys[j] == key && (n == binding_names()[index as int]
                                        || n == #[trigger] binding_names()[j])) by {
                                crate::text::lemma_contains_push(before, name@, n);
                                crate::text::lemma_contains_push(middle, binding_names()[other as int], n);
                                if before.contains(n) {
                                    let j = choose|j: int| index < j < other && keys[j] == key && (n
                                        == binding_names()[index as int] || n == #[trigger] binding_names()[j]);
                                    assert(index < j < other + 1);
                                }
                            }
                        }
                    } else {
                        proof {
                            assert forall|n: Seq<char>|
                                string_views(names@).contains(n) <==> (exists|j: int|
                                    index < j < other + 1 && keys[j] == key && (n == binding_names()[index as int]
                                        || n == #[trigger] binding_names()[j])) by {
                                if exists|j: int|
                                    index < j < other + 1 && keys[j] == key && (n == binding_names()[index as int]
                                        || n == #[trigger] binding_names()[j]) {
                                    let j = choose|j: int| index < j < other + 1 && keys[j] == key && (n
                                        == binding_names()[index as int] || n == #[trigger] binding_names()[j]);
                                    assert(j != other);
                                }
                            }
                        }
                    }
                    other = other + 1;
                }
                if names.len() > 0 {
                    let sorted = sorted_unique(&names);
                    let ghost before = errors@;
                    errors.push((key, sorted));
                    proof {
                        let j = choose|j: int| index < j < KEYBIND_COUNT && keys[j] == key;
                        assert(is_duplicated(keys, index as int)) by {
                            assert(keys[j] == keys[index as int]);
                        }
                        assert(conflict_positions(keys, (index + 1) as nat)
                            == conflict_positions(keys, index as nat).push(index as int));
                        assert forall|n: Seq<char>|
                            #![trigger string_views(sorted@).contains(n)]
                            string_views(sorted@).contains(n) <==> names_key(keys, key, n) by {
                            if names_key(keys, key, n) {
                                let m = choose|m: int| 0 <= m < keys.len() && keys[m] == key && binding_names()[m] == n;
                                if m < index {
                                } else if m == index {
                                    assert(binding_names()[j] == binding_names()[j]);
                                } else {
                                }
                            }
                            if string_views(names@).contains(n) {
                                let m = choose|m: int| index < m < KEYBIND_COUNT && keys[m] == key && (n
                                    == binding_names()[index as int] || n == #[trigger] binding_names()[m]);
                                if n == binding_names()[index as int] {
                                    assert(names_key(keys, key, n)) by {
                                        assert(keys[index as int] == key);
                                    }
                                } else {
                                    assert(names_key(keys, key, n)) by {
                                        assert(keys[m] == key);
                                    }
                                }
                            }
                        }
                        assert(reports_conflict_at(keys, errors@[errors@.len() - 1], index as int));
                        assert forall|t: int| 0 <= t < conflict_positions(keys, (index + 1) as nat).len()
                            implies reports_conflict_at(
                            keys,
                            #[trigger] errors@[t],
                            conflict_positions(keys, (index + 1) as nat)[t],
                        ) by {
                            if t < before.len() {
                                assert(errors@[t] == before[t]);
                            }
                        }
                        assert forall|k: char|
                            #[trigger] key_reported(errors@, k) <==> duplicated_before(keys, (index + 1) as int, k) by {
                            if key_reported(errors@, k) {
                                let t = choose|t: int| 0 <= t < errors@.len() && (#[trigger] errors@[t]).0 == k;
                                if t < before.len() {
                                    assert(before[t].0 == k);
                                    assert(key_reported(before, k));
                                    assert(duplicated_before(keys, index as int, k));
                                    let m = choose|m: int| 0 <= m < index && keys[m] == k && #[trigger] is_duplicated(keys, m);
                                    assert(0 <= m < index + 1);
                                } else {
                                    assert(keys[index as int] == k && is_duplicated(keys, index as int));
                                }
                            }
                            if duplicated_before(keys, (index + 1) as int, k) {
                                let m = choose|m: int| 0 <= m < index + 1 && keys[m] == k && #[trigger] is_duplicated(keys, m);
                                if m == index {
                                    assert(errors@[errors@.len() - 1].0 == k);
                                } else {
                                    assert(duplicated_before(keys, index as int, k));
                                    assert(key_reported(before, k));
                                    let t = choose|t: int| 0 <= t < before.len() && (#[trigger] before[t]).0 == k;
                                    assert(errors@[t].0 == k);
                                }
                            }
                        }
                    }
                } else {
                    proof {
                        assert(!is_duplicated(keys, index as int)) by {
                            if is_duplicated(keys, index as int) {
                                let j = choose|j: int| 0 <= j < keys.len() && j != index && keys[j] == keys[index as int];
                                if j < index {
                                } else {
                                    assert(index < j < KEYBIND_COUNT);
                                }
                            }
                        }
                        assert(conflict_positions(keys, (index + 1) as nat) == conflict_positions(keys, index as nat));
                        assert forall|k: char|
                            #[trigger] key_reported(errors@, k) <==> duplicated_before(keys, (index + 1) as int, k) by {
                            if duplicated_before(keys, (index + 1) as int, k) {
                                let m = choose|m: int| 0 <= m < index + 1 && keys[m] == k && #[trigger] is_duplicated(keys, m);
                                assert(m != index);
                                assert(duplicated_before(keys, index as int, k));
                            }
                            if key_reported(errors@, k) {
                                assert(duplicated_before(keys, index as int, k));
                                let m = choose|m: int| 0 <= m < index && keys[m] == k && #[trigger] is_duplicated(keys, m);
                                assert(0 <= m < index + 1);
                            }
                        }
                    }
                }
            }
            index = index + 1;
        }
        if errors.len() == 0 {
            proof {
                assert forall|i: int| 0 <= i < KEYBIND_COUNT implies !is_duplicated(keys, i) by {
                    if is_duplicated(keys, i) {
                        assert(duplicated_before(keys, KEYBIND_COUNT as int, keys[i]));
                        assert(key_reported(errors@, keys[i]));
                    }
                }
            }
            Ok(())
        } else {
            proof {
                let k = errors@[0].0;
                assert(key_reported(errors@, k));
                assert(duplicated_before(keys, KEYBIND_COUNT as int, k));
            }
            Err(errors)
        }
    }

    /// The number of keybinds.
    pub fn len(&self) -> (r: usize)
        ensures
            r == KEYBIND_COUNT,
    {
        self.iter().len()
    }
}

/// The default keybinds bind each key once.
pub proof fn law_default_keybinds_distinct()
    ensures
        Keybinds::spec_default().conflict_free(),
{
    let keys = Keybinds::spec_default().keys();
    assert forall|i: int| 0 <= i < KEYBIND_COUNT implies !is_duplicated(keys, i) by {
        assert forall|j: int| 0 <= j < keys.len() && j != i implies keys[j] != keys[i] by {}
    }
}

/// Binding a key that is not bound elsewhere keeps every key bound once:
/// `set` can never make two keybinds share a key.
pub proof fn law_set_keeps_keys_distinct(keybinds: Keybinds, index: int, key: char)
    requires
        keybinds.conflict_free(),
        0 <= index < KEYBIND_COUNT,
        !key_taken(keybinds.keys(), index, key),
    ensures
        keybinds.with_key(index, key).conflict_free(),
{
    let old_keys = keybinds.keys();
    let new_keys = keybinds.with_key(index, key).keys();
    assert(new_keys =~= old_keys.update(index, key));
    assert forall|i: int| 0 <= i < KEYBIND_COUNT implies !is_duplicated(new_keys, i) by {
        assert forall|j: int| 0 <= j < new_keys.len() && j != i implies new_keys[j] != new_keys[i] by {
            if i == index {
                assert(new_keys[i] == key);
                assert(new_keys[j] == old_keys[j]);
            } else if j == index {
                assert(new_keys[j] == key);
                assert(new_keys[i] == old_keys[i]);
            } else {
                assert(!is_duplicated(old_keys, i));
            }
        }
    }
}

impl Default for Keybinds {
    fn default() -> (r: Self)
        ensures
            r == Keybinds::spec_default(),
    {
        Keybinds {
            quit: 'q',
            system: 's',
            processor: 'c',
            graphics: 'g',
            disk: 'd',
            processes: 'p',
            memory: 'm',
            network: 'n',
            config: 'z',
        }
    }
}


/// A color that the user can give a panel.
#[derive(Debug, Clone, Copy, PartialEq, Eq, Structural)]
pub enum ConfigColor {
    Reset,
    Black,
    Red,
    Green,
    Yellow,
    Blue,
    Magenta,
    Cyan,
    Gray,
    DarkGray,
    LightRed,
    LightGreen,
    LightYellow,
    LightBlue,
    LightMagenta,
    LightCyan,
    White,
    Rgb(u8, u8, u8),
    Indexed(u8),
}

/// The entries of the color picker, in order. The last two stand for the
/// families of custom colors.
pub open spec fn palette() -> Seq<ConfigColor> {
    seq![
        ConfigColor::Reset,
        ConfigColor::Black,
        ConfigColor::Red,
        ConfigColor::Green,
        ConfigColor::Yellow,
        ConfigColor::Blue,
        ConfigColor::Magenta,
        ConfigColor::Cyan,
        ConfigColor::Gray,
        ConfigColor::DarkGray,
        ConfigColor::LightRed,
        ConfigColor::LightGreen,
        ConfigColor::LightYellow,
        ConfigColor::LightBlue,
        ConfigColor::LightMagenta,
        ConfigColor::LightCyan,
        ConfigColor::White,
        ConfigColor::Rgb(0, 0, 0),
        ConfigColor::Indexed(0),
    ]
}

/// The label that the color picker shows for a color.
pub open spec fn picker_label_of(color: ConfigColor) -> Seq<char> {
    match color {
        ConfigColor::Reset => "Reset"@,
        ConfigColor::Black => "Black"@,
        ConfigColor::Red => "Red"@,
        ConfigColor::Green => "Green"@,
        ConfigColor::Yellow => "Yellow"@,
        ConfigColor::Blue => "Blue"@,
        ConfigColor::Magenta => "Magenta"@,
        ConfigColor::Cyan => "Cyan"@,
        ConfigColor::Gray => "Gray"@,
        ConfigColor::DarkGray => "Dark Gray"@,
        ConfigColor::LightRed => "Light Red"@,
        ConfigColor::LightGreen => "Light Green"@,
        ConfigColor::LightYellow => "Light Yellow"@,
        ConfigColor::LightBlue => "Light Blue"@,
        ConfigColor::LightMagenta => "Light Magenta"@,
        ConfigColor::LightCyan => "Light Cyan"@,
        ConfigColor::White => "White"@,
        ConfigColor::Rgb(_, _, _) => "RGB..."@,
        ConfigColor::Indexed(_) => "Indexed..."@,
    }
}

impl ConfigColor {
    /// The entries of the color picker, in order.
    pub fn iter() -> (r: Vec<ConfigColor>)
        ensures
            r@ == palette(),
    {
        let mut r: Vec<ConfigColor> = Vec::new();
        r.push(ConfigColor::Reset);
        r.push(ConfigColor::Black);
        r.push(ConfigColor::Red);
        r.push(ConfigColor::Green);
        r.push(ConfigColor::Yellow);
        r.push(ConfigColor::Blue);
        r.push(ConfigColor::Magenta);
        r.push(ConfigColor::Cyan);
        r.push(ConfigColor::Gray);
        r.push(ConfigColor::DarkGray);
        r.push(ConfigColor::LightRed);
        r.push(ConfigColor::LightGreen);
        r.push(ConfigColor::LightYellow);
        r.push(ConfigColor::LightBlue);
        r.push(ConfigColor::LightMagenta);
        r.push(ConfigColor::LightCyan);
        r.push(ConfigColor::White);
        r.push(ConfigColor::Rgb(0, 0, 0));
        r.push(ConfigColor::Indexed(0));
        assert(r@ =~= palette());
        r
    }

    /// The label that the color picker shows for this color.
    pub fn picker_label(self) -> (r: &'static str)
        ensures
            r@ == picker_label_of(self),
    {
        match self {
            ConfigColor::Reset => "Reset",
            ConfigColor::Black => "Black",
            ConfigColor::Red => "Red",
            ConfigColor::Green => "Green",
            ConfigColor::Yellow => "Yellow",
            ConfigColor::Blue => "Blue",
            ConfigColor::Magenta => "Magenta",
            ConfigColor::Cyan => "Cyan",
            ConfigColor::Gray => "Gray",
            ConfigColor::DarkGray => "Dark Gray",
            ConfigColor::LightRed => "Light Red",
            ConfigColor::LightGreen => "Light Green",
            ConfigColor::LightYellow => "Light Yellow",
            ConfigColor::LightBlue => "Light Blue",
            ConfigColor::LightMagenta => "Light Magenta",
            ConfigColor::LightCyan => "Light Cyan",
            ConfigColor::White => "White",
            ConfigColor::Rgb(_, _, _) => "RGB...",
            ConfigColor::Indexed(_) => "Indexed...",
        }
    }

    /// The number of entries in the color picker.
    pub fn len() -> (r: usize)
        ensures
            r == PALETTE_LEN,
            r == palette().len(),
    {
        ConfigColor::iter().len()
    }

    /// The picker entry at `index`, or `White` past the end.
    pub fn select(index: usize) -> (r: ConfigColor)
        ensures
            index < PALETTE_LEN ==> r == palette()[index as int],
            index >= PALETTE_LEN ==> r == ConfigColor::White,
    {
        let entries = ConfigColor::iter();
        if index < entries.len() {
            entries[index]
        } else {
            ConfigColor::White
        }
    }
}

impl Default for ConfigColor {
    fn default() -> (r: Self)
        ensures
            r == ConfigColor::Reset,
    {
        ConfigColor::Reset
    }
}

/// The color of each panel that the user can recolor.
#[derive(Debug, Clone, Copy, PartialEq, Eq, Structural)]
pub struct Colors {
    pub disk: ConfigColor,
    pub processes: ConfigColor,
    pub memory: ConfigColor,
    pub network: ConfigColor,
}

/// The names of the panel colors, in order.
pub open spec fn panel_color_names() -> Seq<Seq<char>> {
    seq!["disk"@, "processes"@, "memory"@, "network"@]
}

impl Colors {
    /// The colors in order: disk, processes, memory, network.
    pub open spec fn entries(self) -> Seq<ConfigColor> {
        seq![self.disk, self.processes, self.memory, self.network]
    }

    pub open spec fn spec_default() -> Colors {
        Colors {
            disk: ConfigColor::Green,
            processes: ConfigColor::Blue,
            memory: ConfigColor::Red,
            network: ConfigColor::Cyan,
        }
    }

    /// The panel colors with their names, in order.
    pub fn iter(&self) -> (r: Vec<(&'static str, ConfigColor)>)
        ensures
            r@.len() == PANEL_COLOR_COUNT,
            forall|i: int| 0 <= i < PANEL_COLOR_COUNT ==> (#[trigger] r@[i]).0@ == panel_color_names()[i]
                && r@[i].1 == self.entries()[i],
    {
        let mut r: Vec<(&'static str, ConfigColor)> = Vec::new();
        r.push(("disk", self.disk));
        r.push(("processes", self.processes));
        r.push(("memory", self.memory));
        r.push(("network", self.network));
        r
    }

    /// The number of panel colors.
    pub fn len(&self) -> (r: usize)
        ensures
            r == PANEL_COLOR_COUNT,
    {
        self.iter().len()
    }
}

impl Default for Colors {
    fn default() -> (r: Self)
        ensures
            r == Colors::spec_default(),
    {
        Colors {
            disk: ConfigColor::Green,
            processes: ConfigColor::Blue,
            memory: ConfigColor::Red,
            network: ConfigColor::Cyan,
        }
    }
}

} // verus!
