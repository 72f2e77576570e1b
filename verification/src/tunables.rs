//! The values that the driver can tune while the bot is running.
use crate::text;
use vstd::prelude::*;

verus! {

/// The names of the tunable values.
#[derive(Clone, Copy, Debug, PartialEq, Eq, Structural)]
pub enum Key {
    DriveDuty,
    TurnDuty,
    LongLegMs,
    ShortLegMs,
    Turn90Ms,
    SettleMs,
}

impl Key {
    /// The word that a command names the key by.
    pub open spec fn name(self) -> Seq<char> {
        match self {
            Key::DriveDuty => "drive_duty"@,
            Key::TurnDuty => "turn_duty"@,
            Key::LongLegMs => "long_leg_ms"@,
            Key::ShortLegMs => "short_leg_ms"@,
            Key::Turn90Ms => "turn90_ms"@,
            Key::SettleMs => "settle_ms"@,
        }
    }

    /// The key that `word` names, if it names one.
    pub open spec fn named(word: Seq<char>) -> Option<Key> {
        if exists|key: Key| word == #[trigger] key.name() {
            Some(choose|key: Key| word == #[trigger] key.name())
        } else {
            None
        }
    }

    /// The word for the key.
    pub fn word(self) -> (word: &'static str)
        ensures
            word@ == self.name(),
    {
        match self {
            Key::DriveDuty => "drive_duty",
            Key::TurnDuty => "turn_duty",
            Key::LongLegMs => "long_leg_ms",
            Key::ShortLegMs => "short_leg_ms",
            Key::Turn90Ms => "turn90_ms",
            Key::SettleMs => "settle_ms",
        }
    }

    /// Finds the key that a word names.
    pub fn parse(word: &str) -> (key: Option<Key>)
        ensures
            key == Self::named(word@),
            key is Some ==> word@ == key->0.name(),
    {
        let key = if text::same_text(word, Key::DriveDuty.word()) {
            Key::DriveDuty
        } else if text::same_text(word, Key::TurnDuty.word()) {
            Key::TurnDuty
        } else if text::same_text(word, Key::LongLegMs.word()) {
            Key::LongLegMs
        } else if text::same_text(word, Key::ShortLegMs.word()) {
            Key::ShortLegMs
        } else if text::same_text(word, Key::Turn90Ms.word()) {
            Key::Turn90Ms
        } else if text::same_text(word, Key::SettleMs.word()) {
            Key::SettleMs
        } else {
            return None;
        };
        proof {
            let found = Self::named(word@)->0;
            assert(word@ == key.name());
            key_names_differ(key, found);
        }
        Some(key)
    }
}

/// No two keys have the same name.
pub proof fn key_names_differ(a: Key, b: Key)
    ensures
        a.name() == b.name() ==> a == b,
{
    reveal_strlit("drive_duty");
    reveal_strlit("turn_duty");
    reveal_strlit("long_leg_ms");
    reveal_strlit("short_leg_ms");
    reveal_strlit("turn90_ms");
    reveal_strlit("settle_ms");
    if a.name() == b.name() {
        assert(a.name().len() == b.name().len());
        assert(a.name()[0] == b.name()[0]);
        assert(a.name()[4] == b.name()[4]);
    }
}

/// The speeds, in percent of full duty, and the durations, in milliseconds.
#[derive(Clone, Copy, Debug, PartialEq, Eq, Structural)]
pub struct Tunables {
    pub drive_duty: u32,
    pub turn_duty: u32,
    pub long_leg_ms: u32,
    pub short_leg_ms: u32,
    pub turn_90_ms: u32,
    pub settle_ms: u32,
}

impl Tunables {
    /// The value of a key.
    pub open spec fn at(self, key: Key) -> u32 {
        match key {
            Key::DriveDuty => self.drive_duty,
            Key::TurnDuty => self.turn_duty,
            Key::LongLegMs => self.long_leg_ms,
            Key::ShortLegMs => self.short_leg_ms,
            Key::Turn90Ms => self.turn_90_ms,
            Key::SettleMs => self.settle_ms,
        }
    }

    /// The tunables with one value replaced.
    pub open spec fn with(self, key: Key, value: u32) -> Tunables {
        match key {
            Key::DriveDuty => Tunables { drive_duty: value, ..self },
            Key::TurnDuty => Tunables { turn_duty: value, ..self },
            Key::LongLegMs => Tunables { long_leg_ms: value, ..self },
            Key::ShortLegMs => Tunables { short_leg_ms: value, ..self },
            Key::Turn90Ms => Tunables { turn_90_ms: value, ..self },
            Key::SettleMs => Tunables { settle_ms: value, ..self },
        }
    }

    /// All values by name, as one line.
    pub open spec fn listing(self) -> Seq<char> {
        "drive_duty="@ + text::decimal(self.drive_duty as nat) + " turn_duty="@ + text::decimal(
            self.turn_duty as nat,
        ) + " long_leg_ms="@ + text::decimal(self.long_leg_ms as nat) + " short_leg_ms="@
            + text::decimal(self.short_leg_ms as nat) + " turn90_ms="@ + text::decimal(
            self.turn_90_ms as nat,
        ) + " settle_ms="@ + text::decimal(self.settle_ms as nat)
    }

    /// The values to start from.
    pub fn new() -> (tunables: Self)
        ensures
            tunables == (Tunables {
                drive_duty: 40,
                turn_duty: 50,
                long_leg_ms: 1000,
                short_leg_ms: 500,
                turn_90_ms: 600,
                settle_ms: 300,
            }),
    {
        Tunables {
            drive_duty: 40,
            turn_duty: 50,
            long_leg_ms: 1000,
            short_leg_ms: 500,
            turn_90_ms: 600,
            settle_ms: 300,
        }
    }

    /// Replaces one value. Of a number that 32 bits cannot hold, the low 32 bits are kept.
    pub fn set(&mut self, key: Key, value: u64)
        ensures
            *final(self) == old(self).with(key, (value as nat % 0x1_0000_0000) as u32),
    {
        let kept: u32 = #[verifier::truncate]
        (value as u32);
        assert(kept == value % 0x1_0000_0000) by (bit_vector)
            requires
                kept == value as u32,
        ;
        match key {
            Key::DriveDuty => self.drive_duty = kept,
            Key::TurnDuty => self.turn_duty = kept,
            Key::LongLegMs => self.long_leg_ms = kept,
            Key::ShortLegMs => self.short_leg_ms = kept,
            Key::Turn90Ms => self.turn_90_ms = kept,
            Key::SettleMs => self.settle_ms = kept,
        }
    }

    /// Lists all values by name.
    pub fn list(&self) -> (line: String)
        ensures
            line@ == self.listing(),
    {
        let mut line = String::new();
        line.append("drive_duty=");
        text::push_decimal(&mut line, self.drive_duty as u64);
        line.append(" turn_duty=");
        text::push_decimal(&mut line, self.turn_duty as u64);
        line.append(" long_leg_ms=");
        text::push_decimal(&mut line, self.long_leg_ms as u64);
        line.append(" short_leg_ms=");
        text::push_decimal(&mut line, self.short_leg_ms as u64);
        line.append(" turn90_ms=");
        text::push_decimal(&mut line, self.turn_90_ms as u64);
        line.append(" settle_ms=");
        text::push_decimal(&mut line, self.settle_ms as u64);
        line
    }
}

/// A value that was set is the one that is read, and setting it touches no other.
pub proof fn set_changes_one_value(tunables: Tunables, key: Key, value: u32, other: Key)
    ensures
        tunables.with(key, value).at(key) == value,
        other != key ==> tunables.with(key, value).at(other) == tunables.at(other),
{
}

/// A word names a key if and only if it is the key's name.
pub proof fn named_by_name_alone(word: Seq<char>, key: Key)
    ensures
        Key::named(word) == Some(key) <==> word == key.name(),
{
    if word == key.name() {
        assert(exists|k: Key| word == #[trigger] k.name());
        let found = choose|k: Key| word == #[trigger] k.name();
        key_names_differ(key, found);
    }
    if Key::named(word) == Some(key) {
        assert(exists|k: Key| word == #[trigger] k.name());
    }
}

/// Each key stands for the value of its name.
pub proof fn keys_stand_for_their_values(tunables: Tunables)
    ensures
        tunables.at(Key::DriveDuty) == tunables.drive_duty,
        tunables.at(Key::TurnDuty) == tunables.turn_duty,
        tunables.at(Key::LongLegMs) == tunables.long_leg_ms,
        tunables.at(Key::ShortLegMs) == tunables.short_leg_ms,
        tunables.at(Key::Turn90Ms) == tunables.turn_90_ms,
        tunables.at(Key::SettleMs) == tunables.settle_ms,
        Key::DriveDuty.name() == "drive_duty"@,
        Key::TurnDuty.name() == "turn_duty"@,
        Key::LongLegMs.name() == "long_leg_ms"@,
        Key::ShortLegMs.name() == "short_leg_ms"@,
        Key::Turn90Ms.name() == "turn90_ms"@,
        Key::SettleMs.name() == "settle_ms"@,
{
}

/// Whether a word gives a value to a key: the name, an equals sign and the value.
pub open spec fn assigns(word: Seq<char>, key: Key) -> bool {
    let n = key.name().len() as int;
    word.len() > n && word.take(n) == key.name() && word[n] == '='
}

/// Whether exactly one word of a line gives a value to the key, and the value is `n` in decimal.
pub open spec fn shows(line: Seq<char>, key: Key, n: nat) -> bool {
    let w = text::words(line);
    exists|i: int|
        {
            &&& 0 <= i < w.len()
            &&& assigns(#[trigger] w[i], key)
            &&& text::number(w[i].skip(key.name().len() as int + 1), u32::MAX as nat) == Some(n)
            &&& w[i].skip(key.name().len() as int + 1) == text::decimal(n)
            &&& forall|j: int| 0 <= j < w.len() && assigns(#[trigger] w[j], key) ==> j == i
        }
}

/// A name, an equals sign and a number.
spec fn entry(name: Seq<char>, n: nat) -> Seq<char> {
    name + seq!['='] + text::decimal(n)
}

/// An entry is one word.
proof fn lemma_entry_is_solid(key: Key, n: nat)
    ensures
        entry(key.name(), n).len() > 0,
        text::is_solid(entry(key.name(), n)),
{
    names_are_words(key);
    text::decimal_is_solid(n);
    let e = entry(key.name(), n);
    let k = key.name().len();
    assert forall|i: int| 0 <= i < e.len() implies !text::is_space(#[trigger] e[i]) by {
        if i < k {
            assert(e[i] == key.name()[i]);
        } else if i > k {
            assert(e[i] == text::decimal(n)[i - k - 1]);
        }
    }
}

/// Every name is one word.
pub proof fn names_are_words(key: Key)
    ensures
        key.name().len() > 0,
        text::is_solid(key.name()),
{
    reveal_strlit("drive_duty");
    reveal_strlit("turn_duty");
    reveal_strlit("long_leg_ms");
    reveal_strlit("short_leg_ms");
    reveal_strlit("turn90_ms");
    reveal_strlit("settle_ms");
}

/// One more entry behind a line.
proof fn lemma_one_entry_more(line: Seq<char>, key: Key, n: nat)
    ensures
        text::words(line + seq![' '] + entry(key.name(), n)) == text::words(line).push(
            entry(key.name(), n),
        ),
{
    let e = entry(key.name(), n);
    lemma_entry_is_solid(key, n);
    text::solid_text_is_one_word(e);
    text::space_separates_words(line, ' ', e);
    assert(text::words(line) + seq![e] == text::words(line).push(e));
}

/// The keys in the order in which they are listed.
spec fn key_at(i: int) -> Key {
    if i == 0 {
        Key::DriveDuty
    } else if i == 1 {
        Key::TurnDuty
    } else if i == 2 {
        Key::LongLegMs
    } else if i == 3 {
        Key::ShortLegMs
    } else if i == 4 {
        Key::Turn90Ms
    } else {
        Key::SettleMs
    }
}

/// The words of the listing.
proof fn lemma_listing_words(tunables: Tunables)
    ensures
        text::words(tunables.listing()) == Seq::new(
            6,
            |i: int| entry(key_at(i).name(), tunables.at(key_at(i)) as nat),
        ),
{
    reveal_strlit("drive_duty");
    reveal_strlit("turn_duty");
    reveal_strlit("long_leg_ms");
    reveal_strlit("short_leg_ms");
    reveal_strlit("turn90_ms");
    reveal_strlit("settle_ms");
    reveal_strlit("drive_duty=");
    reveal_strlit(" turn_duty=");
    reveal_strlit(" long_leg_ms=");
    reveal_strlit(" short_leg_ms=");
    reveal_strlit(" turn90_ms=");
    reveal_strlit(" settle_ms=");
    let t = tunables;
    let e0 = entry("drive_duty"@, t.drive_duty as nat);
    let e1 = entry("turn_duty"@, t.turn_duty as nat);
    let e2 = entry("long_leg_ms"@, t.long_leg_ms as nat);
    let e3 = entry("short_leg_ms"@, t.short_leg_ms as nat);
    let e4 = entry("turn90_ms"@, t.turn_90_ms as nat);
    let e5 = entry("settle_ms"@, t.settle_ms as nat);
    let space = seq![' '];
    assert("drive_duty="@ == "drive_duty"@ + seq!['=']);
    assert(" turn_duty="@ == space + ("turn_duty"@ + seq!['=']));
    assert(" long_leg_ms="@ == space + ("long_leg_ms"@ + seq!['=']));
    assert(" short_leg_ms="@ == space + ("short_leg_ms"@ + seq!['=']));
    assert(" turn90_ms="@ == space + ("turn90_ms"@ + seq!['=']));
    assert(" settle_ms="@ == space + ("settle_ms"@ + seq!['=']));
    let l1 = e0 + space + e1;
    let l2 = l1 + space + e2;
    let l3 = l2 + space + e3;
    let l4 = l3 + space + e4;
    let l5 = l4 + space + e5;
    let p1 = "drive_duty="@ + text::decimal(t.drive_duty as nat) + " turn_duty="@ + text::decimal(
        t.turn_duty as nat,
    );
    assert(p1 == l1);
    let p2 = p1 + " long_leg_ms="@ + text::decimal(t.long_leg_ms as nat);
    assert(p2 == l2);
    let p3 = p2 + " short_leg_ms="@ + text::decimal(t.short_leg_ms as nat);
    assert(p3 == l3);
    let p4 = p3 + " turn90_ms="@ + text::decimal(t.turn_90_ms as nat);
    assert(p4 == l4);
    let p5 = p4 + " settle_ms="@ + text::decimal(t.settle_ms as nat);
    assert(p5 == l5);
    assert(t.listing() == l5);
    lemma_entry_is_solid(Key::DriveDuty, t.drive_duty as nat);
    text::solid_text_is_one_word(e0);
    lemma_one_entry_more(e0, Key::TurnDuty, t.turn_duty as nat);
    lemma_one_entry_more(l1, Key::LongLegMs, t.long_leg_ms as nat);
    lemma_one_entry_more(l2, Key::ShortLegMs, t.short_leg_ms as nat);
    lemma_one_entry_more(l3, Key::Turn90Ms, t.turn_90_ms as nat);
    lemma_one_entry_more(l4, Key::SettleMs, t.settle_ms as nat);
    assert(text::words(l5) == seq![e0, e1, e2, e3, e4, e5]);
    assert(seq![e0, e1, e2, e3, e4, e5] == Seq::new(
        6,
        |i: int| entry(key_at(i).name(), t.at(key_at(i)) as nat),
    ));
}

/// An entry gives a value to the key that it names, and to no other.
proof fn lemma_entry_assigns(named: Key, key: Key, n: nat)
    ensures
        assigns(entry(named.name(), n), key) <==> named == key,
{
    reveal_strlit("drive_duty");
    reveal_strlit("turn_duty");
    reveal_strlit("long_leg_ms");
    reveal_strlit("short_leg_ms");
    reveal_strlit("turn90_ms");
    reveal_strlit("settle_ms");
    let e = entry(named.name(), n);
    let k = key.name().len() as int;
    if named == key {
        assert(e.take(k) == key.name());
        assert(e[k] == '=');
    } else if assigns(e, key) {
        assert(e.take(k)[0] == e[0] && e.take(k)[1] == e[1] && e.take(k)[4] == e[4]);
        assert(e[0] == named.name()[0] && e[1] == named.name()[1] && e[4] == named.name()[4]);
        assert(key.name()[0] == named.name()[0]);
        assert(key.name()[1] == named.name()[1]);
        assert(key.name()[4] == named.name()[4]);
        assert(false);
    }
}

/// The listing reads back: for every key it holds exactly one word that starts with the key's name
/// and an equals sign, and the rest of that word is the key's value in decimal.
pub proof fn listing_reads_back(tunables: Tunables, key: Key)
    ensures
        shows(tunables.listing(), key, tunables.at(key) as nat),
        text::words(tunables.listing()).len() == 6,
{
    lemma_listing_words(tunables);
    let w = text::words(tunables.listing());
    let n = tunables.at(key) as nat;
    let i: int = match key {
        Key::DriveDuty => 0,
        Key::TurnDuty => 1,
        Key::LongLegMs => 2,
        Key::ShortLegMs => 3,
        Key::Turn90Ms => 4,
        Key::SettleMs => 5,
    };
    assert(key_at(i) == key);
    assert(w[i] == entry(key.name(), n));
    lemma_entry_assigns(key, key, n);
    assert(w[i].skip(key.name().len() as int + 1) == text::decimal(n));
    text::decimal_reads_back(n, u32::MAX as nat);
    assert forall|j: int| 0 <= j < w.len() && assigns(#[trigger] w[j], key) implies j == i by {
        lemma_entry_assigns(key_at(j), key, tunables.at(key_at(j)) as nat);
    }
}

/// A line shows no two values for one key.
pub proof fn shows_one_value(line: Seq<char>, key: Key, a: nat, b: nat)
    requires
        shows(line, key, a),
        shows(line, key, b),
    ensures
        a == b,
{
}

/// Two sets of values with the same listing are the same.
pub proof fn listing_tells_all(a: Tunables, b: Tunables)
    requires
        a.listing() == b.listing(),
    ensures
        a == b,
{
    assert forall|key: Key| #[trigger] a.at(key) == b.at(key) by {
        listing_reads_back(a, key);
        listing_reads_back(b, key);
        shows_one_value(a.listing(), key, a.at(key) as nat, b.at(key) as nat);
    }
    assert(a.at(Key::DriveDuty) == b.at(Key::DriveDuty));
    assert(a.at(Key::TurnDuty) == b.at(Key::TurnDuty));
    assert(a.at(Key::LongLegMs) == b.at(Key::LongLegMs));
    assert(a.at(Key::ShortLegMs) == b.at(Key::ShortLegMs));
    assert(a.at(Key::Turn90Ms) == b.at(Key::Turn90Ms));
    assert(a.at(Key::SettleMs) == b.at(Key::SettleMs));
}

} // verus!
