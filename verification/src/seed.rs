//! Guest seed files written by the runtime: the environment script, whose
//! values the guest shell reads back literally, the network script, and the
//! proxy variables of Firemage-only networks.
use crate::addressing::{ipv4_text, ipv4_to_text};
use crate::assets::{BootFile, FileEncoding, seed_file};
use crate::text::{
    chars_equal, chars_of, decimal, owned_text, push_char, push_chars, push_decimal, push_text,
};
use vstd::prelude::*;

verus! {

// ---------------------------------------------------------------------------
// Shell quoting
/// The characters standing for `c` inside a single-quoted shell word: a
/// single quote closes the quotes, is written double-quoted, and reopens them.
pub open spec fn quoted_char(c: char) -> Seq<char> {
    if c == '\'' {
        seq!['\'', '"', '\'', '"', '\'']
    } else {
        seq![c]
    }
}

/// `value.replace('\'', "'\"'\"'")`.
pub open spec fn quote_escape(value: Seq<char>) -> Seq<char>
    decreases value.len(),
{
    if value.len() == 0 {
        Seq::empty()
    } else {
        quoted_char(value[0]) + quote_escape(value.drop_first())
    }
}

/// The shell word holding `value` literally.
pub open spec fn shell_quoted(value: Seq<char>) -> Seq<char> {
    seq!['\''] + quote_escape(value) + seq!['\'']
}

/// Quoting context while a POSIX shell reads a word.
#[derive(Clone, Copy, Debug, PartialEq, Eq, Structural)]
pub enum Quoting {
    Unquoted,
    Single,
    Double,
}

/// What a POSIX shell makes of a word whose every character stands inside
/// quotes: `None` when a character is unquoted or has a special meaning
/// inside double quotes (`$`, a backquote, a backslash), so that the shell
/// would not take it literally.
pub open spec fn shell_read(s: Seq<char>, state: Quoting, read: Seq<char>) -> Option<Seq<char>>
    decreases s.len(),
{
    if s.len() == 0 {
        if state == Quoting::Unquoted {
            Some(read)
        } else {
            None
        }
    } else {
        let c = s[0];
        let rest = s.drop_first();
        match state {
            Quoting::Unquoted => if c == '\'' {
                shell_read(rest, Quoting::Single, read)
            } else if c == '"' {
                shell_read(rest, Quoting::Double, read)
            } else {
                None
            },
            Quoting::Single => if c == '\'' {
                shell_read(rest, Quoting::Unquoted, read)
            } else {
                shell_read(rest, Quoting::Single, read.push(c))
            },
            Quoting::Double => if c == '"' {
                shell_read(rest, Quoting::Unquoted, read)
            } else if c == '$' || c == '`' || c == '\\' {
                None
            } else {
                shell_read(rest, Quoting::Double, read.push(c))
            },
        }
    }
}

proof fn lemma_read_escaped(value: Seq<char>, tail: Seq<char>, read: Seq<char>)
    ensures
        shell_read(quote_escape(value) + seq!['\''] + tail, Quoting::Single, read) == shell_read(
            tail,
            Quoting::Unquoted,
            read + value,
        ),
    decreases value.len(),
{
    if value.len() == 0 {
        let s = quote_escape(value) + seq!['\''] + tail;
        assert(s =~= seq!['\''] + tail);
        assert(s.drop_first() =~= tail);
        assert(read + value =~= read);
    } else {
        let c = value[0];
        let v = value.drop_first();
        lemma_read_escaped(v, tail, read.push(c));
        let later = quote_escape(v) + seq!['\''] + tail;
        assert(read.push(c) + v =~= read + value);
        let s = quote_escape(value) + seq!['\''] + tail;
        if c == '\'' {
            assert(s =~= seq!['\'', '"', '\'', '"', '\''] + later);
            let s1 = s.drop_first();
            let s2 = s1.drop_first();
            let s3 = s2.drop_first();
            let s4 = s3.drop_first();
            let s5 = s4.drop_first();
            assert(s1 =~= seq!['"', '\'', '"', '\''] + later);
            assert(s2 =~= seq!['\'', '"', '\''] + later);
            assert(s3 =~= seq!['"', '\''] + later);
            assert(s4 =~= seq!['\''] + later);
            assert(s5 =~= later);
            assert(shell_read(s, Quoting::Single, read) == shell_read(s1, Quoting::Unquoted, read));
            assert(shell_read(s1, Quoting::Unquoted, read) == shell_read(s2, Quoting::Double, read));
            assert(shell_read(s2, Quoting::Double, read) == shell_read(
                s3,
                Quoting::Double,
                read.push('\''),
            ));
            assert(shell_read(s3, Quoting::Double, read.push('\'')) == shell_read(
                s4,
                Quoting::Unquoted,
                read.push('\''),
            ));
            assert(shell_read(s4, Quoting::Unquoted, read.push('\'')) == shell_read(
                s5,
                Quoting::Single,
                read.push('\''),
            ));
        } else {
            assert(s =~= seq![c] + later);
            assert(s.drop_first() =~= later);
        }
    }
}

/// A quoted environment value reads back, in the guest shell, as exactly the
/// value: every character is literal shell data, never code.
pub proof fn lemma_shell_quoted_reads_back(value: Seq<char>)
    ensures
        shell_read(shell_quoted(value), Quoting::Unquoted, Seq::empty()) == Some(value),
{
    let s = shell_quoted(value);
    assert(s.drop_first() =~= quote_escape(value) + seq!['\''] + Seq::<char>::empty());
    lemma_read_escaped(value, Seq::empty(), Seq::empty());
    assert(Seq::<char>::empty() + value =~= value);
}

/// Appends the shell word holding `value` literally.
pub fn push_shell_quoted(s: &mut String, value: &str)
    ensures
        final(s)@ == old(s)@ + shell_quoted(value@),
{
    let v = chars_of(value);
    let ghost start = s@;
    push_char(s, '\'');
    let mut i: usize = 0;
    assert(quote_escape(v@.take(0)) =~= Seq::<char>::empty());
    while i < v.len()
        invariant
            i <= v.len(),
            v@ == value@,
            s@ == start + seq!['\''] + quote_escape_prefix(v@, i as nat),
        decreases v.len() - i,
    {
        let c = v[i];
        if c == '\'' {
            push_char(s, '\'');
            push_char(s, '"');
            push_char(s, '\'');
            push_char(s, '"');
            push_char(s, '\'');
        } else {
            push_char(s, c);
        }
        assert(s@ =~= start + seq!['\''] + quote_escape_prefix(v@, (i + 1) as nat));
        i += 1;
    }
    push_char(s, '\'');
    proof {
        lemma_quote_escape_prefix(v@, v@.len());
    }
    assert(s@ =~= start + shell_quoted(value@));
}

/// The escaped form of the first `n` characters, built left to right.
pub open spec fn quote_escape_prefix(value: Seq<char>, n: nat) -> Seq<char>
    decreases n,
{
    if n == 0 {
        Seq::empty()
    } else {
        quote_escape_prefix(value, (n - 1) as nat) + quoted_char(value[n - 1])
    }
}

proof fn lemma_quote_escape_prefix(value: Seq<char>, n: nat)
    requires
        n <= value.len(),
    ensures
        quote_escape_prefix(value, n) + quote_escape(value.skip(n as int)) == quote_escape(value),
    decreases n,
{
    if n == 0 {
        assert(value.skip(0) =~= value);
        assert(Seq::<char>::empty() + quote_escape(value) =~= quote_escape(value));
    } else {
        lemma_quote_escape_prefix(value, (n - 1) as nat);
        let rest = value.skip(n - 1);
        assert(rest[0] == value[n - 1]);
        assert(rest.drop_first() =~= value.skip(n as int));
        assert(quote_escape(rest) == quoted_char(value[n - 1]) + quote_escape(value.skip(n as int)));
        assert(quote_escape_prefix(value, (n - 1) as nat) + quote_escape(rest) =~= quote_escape_prefix(
            value,
            n,
        ) + quote_escape(value.skip(n as int)));
    }
    if n == value.len() {
        assert(value.skip(n as int) =~= Seq::<char>::empty());
        assert(quote_escape(Seq::<char>::empty()) =~= Seq::<char>::empty());
        assert(quote_escape_prefix(value, n) + Seq::<char>::empty() =~= quote_escape_prefix(
            value,
            n,
        ));
    }
}

// ---------------------------------------------------------------------------
// Environment variables, ordered by name
/// Lexicographic order of texts by code point, which is the byte order of
/// their UTF-8 encodings and so the order of `String`.
pub open spec fn text_less(a: Seq<char>, b: Seq<char>) -> bool
    decreases a.len(),
{
    if a.len() == 0 {
        b.len() > 0
    } else if b.len() == 0 {
        false
    } else if a[0] != b[0] {
        (a[0] as u32) < (b[0] as u32)
    } else {
        text_less(a.drop_first(), b.drop_first())
    }
}

#[verifier::spinoff_prover]
pub(crate) proof fn lemma_text_less_total(a: Seq<char>, b: Seq<char>)
    ensures
        a == b || text_less(a, b) || text_less(b, a),
        !(text_less(a, b) && text_less(b, a)),
        !text_less(a, a),
    decreases a.len(),
{
    if a.len() > 0 && b.len() > 0 {
        lemma_text_less_total(a.drop_first(), b.drop_first());
        if a[0] == b[0] && a.drop_first() == b.drop_first() {
            assert(a =~= seq![a[0]] + a.drop_first());
            assert(b =~= seq![b[0]] + b.drop_first());
        }
        if a[0] == b[0] && a[0] as u32 == b[0] as u32 {
        }
        vstd::utf8::char_u32_cast(a[0], a[0] as u32);
        vstd::utf8::char_u32_cast(b[0], b[0] as u32);
    } else if a.len() == 0 && b.len() == 0 {
        assert(a =~= b);
    }
    if a.len() > 0 {
        lemma_text_less_total(a.drop_first(), a.drop_first());
    }
}

pub(crate) proof fn lemma_text_less_transitive(a: Seq<char>, b: Seq<char>, c: Seq<char>)
    requires
        text_less(a, b),
        text_less(b, c),
    ensures
        text_less(a, c),
    decreases a.len(),
{
    if a.len() > 0 && b.len() > 0 && c.len() > 0 {
        if a[0] == b[0] && b[0] == c[0] {
            lemma_text_less_transitive(a.drop_first(), b.drop_first(), c.drop_first());
        }
        vstd::utf8::char_u32_cast(a[0], a[0] as u32);
        vstd::utf8::char_u32_cast(b[0], b[0] as u32);
        vstd::utf8::char_u32_cast(c[0], c[0] as u32);
    }
}

fn precedes(a: &String, b: &[char]) -> (r: bool)
    ensures
        r == text_less(a@, b@),
{
    let av = chars_of(a.as_str());
    order_of(&av, b) == TextOrder::Less
}

/// How two texts compare.
#[derive(Clone, Copy, Debug, PartialEq, Eq, Structural)]
pub enum TextOrder {
    Less,
    Equal,
    Greater,
}

pub(crate) fn order_of(a: &[char], b: &[char]) -> (r: TextOrder)
    ensures
        r == TextOrder::Less <==> text_less(a@, b@),
        r == TextOrder::Equal <==> a@ == b@,
        r == TextOrder::Greater <==> text_less(b@, a@),
{
    proof {
        lemma_text_less_total(a@, b@);
    }
    let mut i: usize = 0;
    assert(a@.skip(0) =~= a@);
    assert(b@.skip(0) =~= b@);
    while i < a.len() && i < b.len() && a[i] == b[i]
        invariant
            i <= a.len(),
            i <= b.len(),
            a@.take(i as int) == b@.take(i as int),
            text_less(a@, b@) == text_less(a@.skip(i as int), b@.skip(i as int)),
            text_less(b@, a@) == text_less(b@.skip(i as int), a@.skip(i as int)),
        decreases a.len() - i,
    {
        assert(a@.skip(i as int).drop_first() =~= a@.skip(i + 1));
        assert(b@.skip(i as int).drop_first() =~= b@.skip(i + 1));
        assert(a@.take(i + 1) =~= a@.take(i as int).push(a@[i as int]));
        assert(b@.take(i + 1) =~= b@.take(i as int).push(b@[i as int]));
        i += 1;
    }
    if i == a.len() && i == b.len() {
        assert(a@ =~= a@.take(i as int));
        assert(b@ =~= b@.take(i as int));
        return TextOrder::Equal;
    }
    if i == a.len() {
        assert(a@.skip(i as int).len() == 0);
        assert(a@ != b@);
        return TextOrder::Less;
    }
    if i == b.len() {
        assert(b@.skip(i as int).len() == 0);
        assert(a@ != b@);
        return TextOrder::Greater;
    }
    assert(a@.skip(i as int)[0] == a@[i as int]);
    assert(b@.skip(i as int)[0] == b@[i as int]);
    assert(a@ != b@) by {
        if a@ == b@ {
            assert(a@[i as int] == b@[i as int]);
        }
    }
    if (a[i] as u32) < (b[i] as u32) {
        TextOrder::Less
    } else {
        TextOrder::Greater
    }
}

/// Variables for the guest environment script, kept ordered by name with
/// one value per name (what a `BTreeMap<String, String>` holds).
pub struct Environment {
    vars: Vec<(String, String)>,
}

pub open spec fn entry_names(vars: Seq<(String, String)>) -> Seq<Seq<char>> {
    vars.map_values(|e: (String, String)| e.0@)
}

pub open spec fn strictly_ordered(names: Seq<Seq<char>>) -> bool {
    forall|i: int, j: int| 0 <= i < j < names.len() ==> text_less(names[i], names[j])
}

/// The variables as `(name, value)` texts in ascending order of name.
pub open spec fn entries_view(vars: Seq<(String, String)>) -> Seq<(Seq<char>, Seq<char>)> {
    vars.map_values(|e: (String, String)| (e.0@, e.1@))
}

impl Environment {
    pub closed spec fn entries(&self) -> Seq<(Seq<char>, Seq<char>)> {
        entries_view(self.vars@)
    }

    /// Names are unique and ascending.
    pub closed spec fn well_formed(&self) -> bool {
        strictly_ordered(entry_names(self.vars@))
    }

    /// The value of each name.
    pub open spec fn value_of(&self, name: Seq<char>) -> Option<Seq<char>> {
        if exists|i: int| 0 <= i < self.entries().len() && #[trigger] self.entries()[i].0 == name {
            let i = choose|i: int| 0 <= i < self.entries().len() && #[trigger] self.entries()[i].0 == name;
            Some(self.entries()[i].1)
        } else {
            None
        }
    }

    pub fn new() -> (e: Self)
        ensures
            e.well_formed(),
            e.entries() == Seq::<(Seq<char>, Seq<char>)>::empty(),
    {
        let e = Environment { vars: Vec::new() };
        assert(e.entries() =~= Seq::<(Seq<char>, Seq<char>)>::empty());
        e
    }

    pub fn is_empty(&self) -> (r: bool)
        ensures
            r == (self.entries().len() == 0),
    {
        self.vars.len() == 0
    }

    pub proof fn lemma_ordered(&self)
        requires
            self.well_formed(),
        ensures
            forall|i: int, j: int|
                0 <= i < j < self.entries().len() ==> text_less(
                    #[trigger] self.entries()[i].0,
                    #[trigger] self.entries()[j].0,
                ),
    {
        assert forall|i: int, j: int| 0 <= i < j < self.entries().len() implies text_less(
            #[trigger] self.entries()[i].0,
            #[trigger] self.entries()[j].0,
        ) by {
            assert(entry_names(self.vars@)[i] == self.entries()[i].0);
            assert(entry_names(self.vars@)[j] == self.entries()[j].0);
        }
    }

    /// Sets `name` to `value`, replacing an earlier value.
    pub fn set(&mut self, name: String, value: String)
        requires
            old(self).well_formed(),
        ensures
            final(self).well_formed(),
            final(self).value_of(name@) == Some(value@),
            forall|other: Seq<char>|
                other != name@ ==> final(self).value_of(other) == old(self).value_of(other),
    {
        let name_chars = chars_of(name.as_str());
        let mut i: usize = 0;
        let ghost names = entry_names(self.vars@);
        while i < self.vars.len() && precedes(&self.vars[i].0, &name_chars)
            invariant
                i <= self.vars.len(),
                names == entry_names(self.vars@),
                strictly_ordered(names),
                name_chars@ == name@,
                forall|j: int| 0 <= j < i ==> text_less(#[trigger] names[j], name@),
            decreases self.vars.len() - i,
        {
            assert(self.vars@[i as int].0@ == names[i as int]);
            i += 1;
        }
        let ghost before = self.vars@;
        let ghost old_self = *self;
        let replace = if i < self.vars.len() {
            let current = chars_of(self.vars[i].0.as_str());
            assert(current@ == names[i as int]);
            chars_equal(&current, &name_chars)
        } else {
            false
        };
        proof {
            lemma_text_less_total(name@, name@);
            if i < before.len() {
                assert(before[i as int].0@ == names[i as int]);
                lemma_text_less_total(names[i as int], name@);
            }
            assert forall|j: int| 0 <= j < names.len() && !replace implies #[trigger] names[j] != name@ by {
                if j < i {
                    assert(text_less(names[j], name@));
                } else {
                    assert(text_less(name@, names[i as int]));
                    if j > i {
                        assert(text_less(names[i as int], names[j]));
                        lemma_text_less_transitive(name@, names[i as int], names[j]);
                    }
                }
            }
        }
        if replace {
            self.vars.set(i, (name, value));
            proof {
                let after = self.vars@;
                assert(entry_names(after) =~= names);
                assert(entries_view(after) =~= entries_view(before).update(
                    i as int,
                    (name@, value@),
                ));
                self.lemma_value_after_replace(old_self, i as int, name@, value@);
            }
        } else {
            self.vars.insert(i, (name, value));
            proof {
                let after = self.vars@;
                assert(entry_names(after) =~= names.insert(i as int, name@));
                assert(entries_view(after) =~= entries_view(before).insert(
                    i as int,
                    (name@, value@),
                ));
                assert forall|a: int, b: int|
                    0 <= a < b < entry_names(after).len() implies text_less(
                    entry_names(after)[a],
                    entry_names(after)[b],
                ) by {
                    let n = entry_names(after);
                    if b < i {
                    } else if a < i && b == i {
                    } else if a < i && b > i {
                        assert(text_less(names[a], name@));
                        assert(text_less(name@, names[i as int]));
                        lemma_text_less_transitive(names[a], name@, names[i as int]);
                        if b - 1 > i {
                            lemma_text_less_transitive(names[a], names[i as int], names[b - 1]);
                        }
                    } else if a == i {
                        assert(text_less(name@, names[i as int]));
                        if b - 1 > i {
                            lemma_text_less_transitive(name@, names[i as int], names[b - 1]);
                        }
                    } else {
                    }
                }
                assert forall|j: int| 0 <= j < old_self.entries().len() implies #[trigger] old_self.entries()[j].0 != name@ by {
                    assert(old_self.entries()[j].0 == names[j]);
                }
                self.lemma_value_after_insert(old_self, i as int, name@, value@);
            }
        }
    }

    proof fn lemma_value_after_replace(
        &self,
        old_self: Environment,
        i: int,
        name: Seq<char>,
        value: Seq<char>,
    )
        requires
            old_self.well_formed(),
            self.well_formed(),
            0 <= i < old_self.entries().len(),
            old_self.entries()[i].0 == name,
            self.entries() == old_self.entries().update(i, (name, value)),
        ensures
            self.value_of(name) == Some(value),
            forall|other: Seq<char>| other != name ==> self.value_of(other) == old_self.value_of(other),
    {
        self.lemma_unique(name);
        assert(self.entries()[i].0 == name);
        let k = choose|k: int| 0 <= k < self.entries().len() && #[trigger] self.entries()[k].0 == name;
        assert(k == i);
        assert forall|other: Seq<char>| other != name implies self.value_of(other) == old_self.value_of(
            other,
        ) by {
            if exists|j: int| 0 <= j < self.entries().len() && #[trigger] self.entries()[j].0 == other {
                let j = choose|j: int| 0 <= j < self.entries().len() && #[trigger] self.entries()[j].0 == other;
                assert(j != i);
                assert(old_self.entries()[j].0 == other);
                self.lemma_unique(other);
                old_self.lemma_unique(other);
            } else {
                if exists|j: int| 0 <= j < old_self.entries().len() && #[trigger] old_self.entries()[j].0 == other {
                    let j = choose|j: int| 0 <= j < old_self.entries().len() && #[trigger] old_self.entries()[j].0 == other;
                    assert(j != i);
                    assert(self.entries()[j].0 == other);
                }
            }
        }
    }

    proof fn lemma_unique(&self, name: Seq<char>)
        requires
            self.well_formed(),
        ensures
            forall|a: int, b: int|
                0 <= a < self.entries().len() && 0 <= b < self.entries().len() && #[trigger] self.entries()[a].0
                    == name && #[trigger] self.entries()[b].0 == name ==> a == b,
    {
        self.lemma_ordered();
        assert forall|a: int, b: int|
            0 <= a < self.entries().len() && 0 <= b < self.entries().len() && #[trigger] self.entries()[a].0
                == name && #[trigger] self.entries()[b].0 == name implies a == b by {
            if a < b {
                assert(text_less(self.entries()[a].0, self.entries()[b].0));
                lemma_text_less_total(name, name);
            } else if b < a {
                assert(text_less(self.entries()[b].0, self.entries()[a].0));
                lemma_text_less_total(name, name);
            }
        }
    }

    proof fn lemma_value_after_insert(
        &self,
        old_self: Environment,
        i: int,
        name: Seq<char>,
        value: Seq<char>,
    )
        requires
            old_self.well_formed(),
            self.well_formed(),
            0 <= i <= old_self.entries().len(),
            forall|j: int|
                0 <= j < old_self.entries().len() ==> #[trigger] old_self.entries()[j].0 != name,
            self.entries() == old_self.entries().insert(i, (name, value)),
        ensures
            self.value_of(name) == Some(value),
            forall|other: Seq<char>| other != name ==> self.value_of(other) == old_self.value_of(other),
    {
        self.lemma_unique(name);
        assert(self.entries()[i].0 == name);
        let k = choose|k: int| 0 <= k < self.entries().len() && #[trigger] self.entries()[k].0 == name;
        assert(k == i);
        assert forall|other: Seq<char>| other != name implies self.value_of(other) == old_self.value_of(
            other,
        ) by {
            self.lemma_unique(other);
            old_self.lemma_unique(other);
            if exists|j: int| 0 <= j < self.entries().len() && #[trigger] self.entries()[j].0 == other {
                let j = choose|j: int| 0 <= j < self.entries().len() && #[trigger] self.entries()[j].0 == other;
                assert(j != i);
                let oj = if j < i {
                    j
                } else {
                    j - 1
                };
                assert(old_self.entries()[oj] == self.entries()[j]);
            } else {
                if exists|j: int| 0 <= j < old_self.entries().len() && #[trigger] old_self.entries()[j].0 == other {
                    let j = choose|j: int| 0 <= j < old_self.entries().len() && #[trigger] old_self.entries()[j].0 == other;
                    let nj = if j < i {
                        j
                    } else {
                        j + 1
                    };
                    assert(self.entries()[nj] == old_self.entries()[j]);
                }
            }
        }
    }

    /// The environment script: one `export NAME='value'` line per variable,
    /// in ascending order of name, each value quoted to read back literally.
    pub fn script(&self) -> (s: String)
        ensures
            s@ == environment_script(self.entries()),
    {
        let mut s = String::new();
        let mut i: usize = 0;
        assert(self.entries().take(0) =~= Seq::<(Seq<char>, Seq<char>)>::empty());
        while i < self.vars.len()
            invariant
                i <= self.vars.len(),
                s@ == environment_script(self.entries().take(i as int)),
            decreases self.vars.len() - i,
        {
            let ghost before = s@;
            push_text(&mut s, "export ");
            push_text(&mut s, self.vars[i].0.as_str());
            push_char(&mut s, '=');
            push_shell_quoted(&mut s, self.vars[i].1.as_str());
            push_char(&mut s, '\n');
            proof {
                let t = self.entries().take(i + 1);
                assert(t.drop_last() =~= self.entries().take(i as int));
                assert(t.last() == (self.vars@[i as int].0@, self.vars@[i as int].1@));
                assert(s@ =~= before + export_line(t.last().0, t.last().1));
            }
            i += 1;
        }
        assert(self.entries().take(i as int) =~= self.entries());
        s
    }
}

/// `export NAME='value'` and a newline.
pub open spec fn export_line(name: Seq<char>, value: Seq<char>) -> Seq<char> {
    "export "@ + name + seq!['='] + shell_quoted(value) + seq!['\n']
}

pub open spec fn environment_script(entries: Seq<(Seq<char>, Seq<char>)>) -> Seq<char>
    decreases entries.len(),
{
    if entries.len() == 0 {
        Seq::empty()
    } else {
        environment_script(entries.drop_last()) + export_line(
            entries.last().0,
            entries.last().1,
        )
    }
}

// ---------------------------------------------------------------------------
// Network and proxy
/// The guest port of the HTTP egress proxy: the port of an inline policy's
/// HTTP proxy, else the VM's configured egress port.
pub fn guest_proxy_port(inline_http_port: Option<u16>, egress_http_port: u16) -> (r: u16)
    ensures
        r == match inline_http_port {
            Some(p) => p,
            None => egress_http_port,
        },
{
    match inline_http_port {
        Some(p) => p,
        None => egress_http_port,
    }
}

/// `http://<gateway>:<port>`.
pub open spec fn proxy_url(gateway: u32, port: u16) -> Seq<char> {
    "http://"@ + ipv4_text(gateway) + seq![':'] + decimal(port as nat)
}

pub fn proxy_url_text(gateway: u32, port: u16) -> (r: String)
    ensures
        r@ == proxy_url(gateway, port),
{
    let mut r = owned_text("http://");
    let g = ipv4_to_text(gateway);
    push_chars(&mut r, &chars_of(g.as_str()));
    push_char(&mut r, ':');
    push_decimal(&mut r, port as u64);
    r
}

/// Where the guest finds the egress proxy's CA certificate.
pub open spec fn guest_ca_path() -> Seq<char> {
    "/firemage/input/firemage/ca.pem"@
}

/// Points the guest's proxy and CA variables at the gateway proxy: the
/// proxy variables to `proxy_url`, `no_proxy` empty, and the CA bundle
/// variables to the seeded certificate.
pub fn set_proxy_environment(env: &mut Environment, gateway: u32, port: u16)
    requires
        old(env).well_formed(),
    ensures
        final(env).well_formed(),
        final(env).value_of("http_proxy"@) == Some(proxy_url(gateway, port)),
        final(env).value_of("https_proxy"@) == Some(proxy_url(gateway, port)),
        final(env).value_of("HTTP_PROXY"@) == Some(proxy_url(gateway, port)),
        final(env).value_of("HTTPS_PROXY"@) == Some(proxy_url(gateway, port)),
        final(env).value_of("no_proxy"@) == Some(Seq::<char>::empty()),
        final(env).value_of("NO_PROXY"@) == Some(Seq::<char>::empty()),
        final(env).value_of("SSL_CERT_FILE"@) == Some(guest_ca_path()),
        final(env).value_of("REQUESTS_CA_BUNDLE"@) == Some(guest_ca_path()),
        final(env).value_of("NODE_EXTRA_CA_CERTS"@) == Some(guest_ca_path()),
        final(env).value_of("CURL_CA_BUNDLE"@) == Some(guest_ca_path()),
        forall|other: Seq<char>|
            !proxy_variable(other) ==> final(env).value_of(other) == old(env).value_of(other),
{
    proof {
        reveal_strlit("http_proxy");
        reveal_strlit("https_proxy");
        reveal_strlit("HTTP_PROXY");
        reveal_strlit("HTTPS_PROXY");
        reveal_strlit("no_proxy");
        reveal_strlit("NO_PROXY");
        reveal_strlit("SSL_CERT_FILE");
        reveal_strlit("REQUESTS_CA_BUNDLE");
        reveal_strlit("NODE_EXTRA_CA_CERTS");
        reveal_strlit("CURL_CA_BUNDLE");
        assert("http_proxy"@[0] != "HTTP_PROXY"@[0]);
        assert("https_proxy"@[0] != "HTTPS_PROXY"@[0]);
        assert("no_proxy"@[0] != "NO_PROXY"@[0]);
    }
    let url = proxy_url_text(gateway, port);
    env.set(owned_text("http_proxy"), url.clone());
    env.set(owned_text("https_proxy"), url.clone());
    env.set(owned_text("HTTP_PROXY"), url.clone());
    env.set(owned_text("HTTPS_PROXY"), url);
    env.set(owned_text("no_proxy"), String::new());
    env.set(owned_text("NO_PROXY"), String::new());
    assert(env.value_of("NO_PROXY"@) == Some(Seq::<char>::empty()));
    assert("NO_PROXY"@.len() == 8);
    env.set(owned_text("SSL_CERT_FILE"), owned_text("/firemage/input/firemage/ca.pem"));
    env.set(owned_text("REQUESTS_CA_BUNDLE"), owned_text("/firemage/input/firemage/ca.pem"));
    env.set(owned_text("NODE_EXTRA_CA_CERTS"), owned_text("/firemage/input/firemage/ca.pem"));
    env.set(owned_text("CURL_CA_BUNDLE"), owned_text("/firemage/input/firemage/ca.pem"));
}

/// The variables that point the guest at the egress proxy.
pub open spec fn proxy_variable(name: Seq<char>) -> bool {
    ||| name == "http_proxy"@
    ||| name == "https_proxy"@
    ||| name == "HTTP_PROXY"@
    ||| name == "HTTPS_PROXY"@
    ||| name == "no_proxy"@
    ||| name == "NO_PROXY"@
    ||| name == "SSL_CERT_FILE"@
    ||| name == "REQUESTS_CA_BUNDLE"@
    ||| name == "NODE_EXTRA_CA_CERTS"@
    ||| name == "CURL_CA_BUNDLE"@
}

/// The guest network script: bring `eth0` up with the VM's address and
/// prefix length, and route through the gateway.
pub open spec fn network_script(address: u32, prefix_len: u8, gateway: u32) -> Seq<char> {
    "ip link set eth0 up\nip addr flush dev eth0\nip addr add "@ + ipv4_text(address) + seq!['/']
        + decimal(prefix_len as nat) + " dev eth0\nip route replace default via "@ + ipv4_text(
        gateway,
    ) + " dev eth0\n"@
}

pub fn network_script_text(address: u32, prefix_len: u8, gateway: u32) -> (r: String)
    ensures
        r@ == network_script(address, prefix_len, gateway),
{
    let mut r = owned_text("ip link set eth0 up\nip addr flush dev eth0\nip addr add ");
    let a = ipv4_to_text(address);
    push_chars(&mut r, &chars_of(a.as_str()));
    push_char(&mut r, '/');
    push_decimal(&mut r, prefix_len as u64);
    push_text(&mut r, " dev eth0\nip route replace default via ");
    let g = ipv4_to_text(gateway);
    push_chars(&mut r, &chars_of(g.as_str()));
    push_text(&mut r, " dev eth0\n");
    r
}


// ---------------------------------------------------------------------------
// The seed file list
/// The value given last to `name` in `values`.
pub open spec fn listed_value(values: Seq<(String, String)>, name: Seq<char>) -> Option<Seq<char>>
    decreases values.len(),
{
    if values.len() == 0 {
        None
    } else if values.last().0@ == name {
        Some(values.last().1@)
    } else {
        listed_value(values.drop_last(), name)
    }
}

/// The guest environment: the VM's variables, with the proxy variables
/// set to the egress proxy when the VM is on a Firemage-only network
/// (`proxy` holds the gateway and port then).
pub open spec fn seed_value(
    values: Seq<(String, String)>,
    proxy: Option<(u32, u16)>,
    name: Seq<char>,
) -> Option<Seq<char>> {
    match proxy {
        Some((gateway, port)) if proxy_variable(name) => if name == "no_proxy"@ || name
            == "NO_PROXY"@ {
            Some(Seq::<char>::empty())
        } else if name == "http_proxy"@ || name == "https_proxy"@ || name == "HTTP_PROXY"@
            || name == "HTTPS_PROXY"@ {
            Some(proxy_url(gateway, port))
        } else {
            Some(guest_ca_path())
        },
        _ => listed_value(values, name),
    }
}

/// Builds the guest environment (see `seed_value`); `values` holds the
/// VM's variables with secrets resolved.
pub fn seed_environment(values: &[(String, String)], proxy: Option<(u32, u16)>) -> (e: Environment)
    ensures
        e.well_formed(),
        forall|name: Seq<char>| e.value_of(name) == seed_value(values@, proxy, name),
{
    let mut e = Environment::new();
    let mut i: usize = 0;
    assert(values@.take(0) =~= Seq::<(String, String)>::empty());
    while i < values.len()
        invariant
            i <= values.len(),
            e.well_formed(),
            forall|name: Seq<char>| e.value_of(name) == listed_value(values@.take(i as int), name),
        decreases values.len() - i,
    {
        let ghost t = values@.take(i + 1);
        assert(t.drop_last() =~= values@.take(i as int));
        assert(t.last() == values@[i as int]);
        e.set(values[i].0.clone(), values[i].1.clone());
        i += 1;
    }
    assert(values@.take(i as int) =~= values@);
    match proxy {
        Some((gateway, port)) => {
            set_proxy_environment(&mut e, gateway, port);
            proof {
                reveal_strlit("http_proxy");
                reveal_strlit("https_proxy");
                reveal_strlit("HTTP_PROXY");
                reveal_strlit("HTTPS_PROXY");
                reveal_strlit("no_proxy");
                reveal_strlit("NO_PROXY");
                reveal_strlit("SSL_CERT_FILE");
                reveal_strlit("REQUESTS_CA_BUNDLE");
                reveal_strlit("NODE_EXTRA_CA_CERTS");
                reveal_strlit("CURL_CA_BUNDLE");
                assert("http_proxy"@[0] != "HTTP_PROXY"@[0]);
                assert("https_proxy"@[0] != "HTTPS_PROXY"@[0]);
                assert("no_proxy"@[0] != "NO_PROXY"@[0]);
            }
        },
        None => {},
    }
    e
}

/// The network a guest's seed describes: its address, the network's
/// prefix length and gateway, and for a Firemage-only network the proxy
/// port and the egress proxy's CA certificate.
pub struct SeedNetwork {
    pub address: u32,
    pub prefix_len: u8,
    pub gateway: u32,
    pub restricted: Option<(u16, String)>,
}

/// A runtime-generated seed file as (path, content).
pub open spec fn generated(f: BootFile) -> (Seq<char>, Seq<char>) {
    (f.path@, f.content@)
}

pub open spec fn is_generated(f: BootFile) -> bool {
    f.encoding == FileEncoding::Utf8 && f.destination is None && f.uid == 0 && f.gid == 0 && f.mode
        == 0o600
}

/// The files the runtime generates, in order: the workload script, the
/// network script, the egress CA on a Firemage-only network, and the
/// environment script when there is any variable.
pub open spec fn generated_files(
    workload: Option<Seq<char>>,
    network: Option<SeedNetwork>,
    environment: Seq<(Seq<char>, Seq<char>)>,
) -> Seq<(Seq<char>, Seq<char>)> {
    (match workload {
        Some(w) => seq![("firemage/workload.sh"@, w)],
        None => seq![],
    }) + (match network {
        Some(n) => seq![("firemage/network.sh"@, network_script(n.address, n.prefix_len, n.gateway))]
            + match n.restricted {
            Some((_, ca)) => seq![("firemage/ca.pem"@, ca@)],
            None => seq![],
        },
        None => seq![],
    }) + (if environment.len() > 0 {
        seq![("firemage/environment.sh"@, environment_script(environment))]
    } else {
        seq![]
    })
}

pub open spec fn text_option(o: Option<String>) -> Option<Seq<char>> {
    match o {
        Some(t) => Some(t@),
        None => None,
    }
}

pub open spec fn optional_file(f: Option<BootFile>) -> Seq<BootFile> {
    match f {
        Some(x) => seq![x],
        None => seq![],
    }
}

/// The files given to the guest's seed disk: the VM's own files, the
/// guest terminal binary if any, the asset and secret attachments, then
/// the generated files (see `generated_files`).
pub fn seed_file_list(
    files: Vec<BootFile>,
    guest_binary: Option<BootFile>,
    attachments: Vec<BootFile>,
    secrets: Vec<BootFile>,
    workload: Option<String>,
    network: Option<SeedNetwork>,
    environment: &Environment,
) -> (r: Vec<BootFile>)
    ensures
        ({
            let head = files@ + optional_file(guest_binary) + attachments@ + secrets@;
            let tail = r@.skip(head.len() as int);
            &&& head.len() <= r@.len()
            &&& r@.take(head.len() as int) == head
            &&& forall|i: int| 0 <= i < tail.len() ==> is_generated(#[trigger] tail[i])
            &&& tail.map_values(|f: BootFile| generated(f)) == generated_files(
                text_option(workload),
                network,
                environment.entries(),
            )
        }),
{
    let ghost head = files@ + optional_file(guest_binary) + attachments@ + secrets@;
    let ghost g = generated_files(text_option(workload), network, environment.entries());
    let mut r = files;
    let ghost f0 = r@;
    match guest_binary {
        Some(b) => r.push(b),
        None => {},
    }
    let mut a = attachments;
    r.append(&mut a);
    let mut s = secrets;
    r.append(&mut s);
    assert(r@ =~= head);
    let n = r.len();
    match workload {
        Some(text) => r.push(seed_file("firemage/workload.sh", text)),
        None => {},
    }
    match network {
        Some(net) => {
            r.push(
                seed_file(
                    "firemage/network.sh",
                    network_script_text(net.address, net.prefix_len, net.gateway),
                ),
            );
            match net.restricted {
                Some((_, ca)) => r.push(seed_file("firemage/ca.pem", ca)),
                None => {},
            }
        },
        None => {},
    }
    if !environment.is_empty() {
        r.push(seed_file("firemage/environment.sh", environment.script()));
    }
    proof {
        let tail = r@.skip(n as int);
        assert(r@.take(n as int) =~= head);
        assert(tail.map_values(|f: BootFile| generated(f)) =~= g);
    }
    r
}

} // verus!
