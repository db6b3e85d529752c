//! Key chords: a key of a fixed table plus a set of modifiers, written as
//! `C-M-S-L-<key>` with each modifier present only when it is held.

use vstd::prelude::*;

verus! {

/// The keys that a shortcut can name: letters, digits and the space bar.
#[derive(Debug, Clone, Copy, PartialEq, Eq, Structural, Hash)]
pub enum Key {
    A,
    B,
    C,
    D,
    E,
    F,
    G,
    H,
    I,
    J,
    K,
    L,
    M,
    N,
    O,
    P,
    Q,
    R,
    S,
    T,
    U,
    V,
    W,
    X,
    Y,
    Z,
    Key1,
    Key2,
    Key3,
    Key4,
    Key5,
    Key6,
    Key7,
    Key8,
    Key9,
    Key0,
    Space,
}

/// The characters that name a key, as shortcuts write them.
pub open spec fn key_name(k: Key) -> Seq<char> {
    match k {
        Key::A => seq!['a'],
        Key::B => seq!['b'],
        Key::C => seq!['c'],
        Key::D => seq!['d'],
        Key::E => seq!['e'],
        Key::F => seq!['f'],
        Key::G => seq!['g'],
        Key::H => seq!['h'],
        Key::I => seq!['i'],
        Key::J => seq!['j'],
        Key::K => seq!['k'],
        Key::L => seq!['l'],
        Key::M => seq!['m'],
        Key::N => seq!['n'],
        Key::O => seq!['o'],
        Key::P => seq!['p'],
        Key::Q => seq!['q'],
        Key::R => seq!['r'],
        Key::S => seq!['s'],
        Key::T => seq!['t'],
        Key::U => seq!['u'],
        Key::V => seq!['v'],
        Key::W => seq!['w'],
        Key::X => seq!['x'],
        Key::Y => seq!['y'],
        Key::Z => seq!['z'],
        Key::Key1 => seq!['1'],
        Key::Key2 => seq!['2'],
        Key::Key3 => seq!['3'],
        Key::Key4 => seq!['4'],
        Key::Key5 => seq!['5'],
        Key::Key6 => seq!['6'],
        Key::Key7 => seq!['7'],
        Key::Key8 => seq!['8'],
        Key::Key9 => seq!['9'],
        Key::Key0 => seq!['0'],
        Key::Space => seq!['S', 'P', 'C'],
    }
}

/// The key that a one-character token names, if any.
pub open spec fn key_of_char(c: char) -> Option<Key> {
    match c {
        'a' => Some(Key::A),
        'b' => Some(Key::B),
        'c' => Some(Key::C),
        'd' => Some(Key::D),
        'e' => Some(Key::E),
        'f' => Some(Key::F),
        'g' => Some(Key::G),
        'h' => Some(Key::H),
        'i' => Some(Key::I),
        'j' => Some(Key::J),
        'k' => Some(Key::K),
        'l' => Some(Key::L),
        'm' => Some(Key::M),
        'n' => Some(Key::N),
        'o' => Some(Key::O),
        'p' => Some(Key::P),
        'q' => Some(Key::Q),
        'r' => Some(Key::R),
        's' => Some(Key::S),
        't' => Some(Key::T),
        'u' => Some(Key::U),
        'v' => Some(Key::V),
        'w' => Some(Key::W),
        'x' => Some(Key::X),
        'y' => Some(Key::Y),
        'z' => Some(Key::Z),
        '1' => Some(Key::Key1),
        '2' => Some(Key::Key2),
        '3' => Some(Key::Key3),
        '4' => Some(Key::Key4),
        '5' => Some(Key::Key5),
        '6' => Some(Key::Key6),
        '7' => Some(Key::Key7),
        '8' => Some(Key::Key8),
        '9' => Some(Key::Key9),
        '0' => Some(Key::Key0),
        _ => None,
    }
}

fn key_from_char(c: char) -> (r: Option<Key>)
    ensures
        r == key_of_char(c),
{
    match c {
        'a' => Some(Key::A),
        'b' => Some(Key::B),
        'c' => Some(Key::C),
        'd' => Some(Key::D),
        'e' => Some(Key::E),
        'f' => Some(Key::F),
        'g' => Some(Key::G),
        'h' => Some(Key::H),
        'i' => Some(Key::I),
        'j' => Some(Key::J),
        'k' => Some(Key::K),
        'l' => Some(Key::L),
        'm' => Some(Key::M),
        'n' => Some(Key::N),
        'o' => Some(Key::O),
        'p' => Some(Key::P),
        'q' => Some(Key::Q),
        'r' => Some(Key::R),
        's' => Some(Key::S),
        't' => Some(Key::T),
        'u' => Some(Key::U),
        'v' => Some(Key::V),
        'w' => Some(Key::W),
        'x' => Some(Key::X),
        'y' => Some(Key::Y),
        'z' => Some(Key::Z),
        '1' => Some(Key::Key1),
        '2' => Some(Key::Key2),
        '3' => Some(Key::Key3),
        '4' => Some(Key::Key4),
        '5' => Some(Key::Key5),
        '6' => Some(Key::Key6),
        '7' => Some(Key::Key7),
        '8' => Some(Key::Key8),
        '9' => Some(Key::Key9),
        '0' => Some(Key::Key0),
        _ => None,
    }
}

fn key_str(k: Key) -> (r: &'static str)
    ensures
        r@ == key_name(k),
{
    match k {
        Key::A => {
            proof {
                reveal_strlit("a");
            }
            "a"
        },
        Key::B => {
            proof {
                reveal_strlit("b");
            }
            "b"
        },
        Key::C => {
            proof {
                reveal_strlit("c");
            }
            "c"
        },
        Key::D => {
            proof {
                reveal_strlit("d");
            }
            "d"
        },
        Key::E => {
            proof {
                reveal_strlit("e");
            }
            "e"
        },
        Key::F => {
            proof {
                reveal_strlit("f");
            }
            "f"
        },
        Key::G => {
            proof {
                reveal_strlit("g");
            }
            "g"
        },
        Key::H => {
            proof {
                reveal_strlit("h");
            }
            "h"
        },
        Key::I => {
            proof {
                reveal_strlit("i");
            }
            "i"
        },
        Key::J => {
            proof {
                reveal_strlit("j");
            }
            "j"
        },
        Key::K => {
            proof {
                reveal_strlit("k");
            }
            "k"
        },
        Key::L => {
            proof {
                reveal_strlit("l");
            }
            "l"
        },
        Key::M => {
            proof {
                reveal_strlit("m");
            }
            "m"
        },
        Key::N => {
            proof {
                reveal_strlit("n");
            }
            "n"
        },
        Key::O => {
            proof {
                reveal_strlit("o");
            }
            "o"
        },
        Key::P => {
            proof {
                reveal_strlit("p");
            }
            "p"
        },
        Key::Q => {
            proof {
                reveal_strlit("q");
            }
            "q"
        },
        Key::R => {
            proof {
                reveal_strlit("r");
            }
            "r"
        },
        Key::S => {
            proof {
                reveal_strlit("s");
            }
            "s"
        },
        Key::T => {
            proof {
                reveal_strlit("t");
            }
            "t"
        },
        Key::U => {
            proof {
                reveal_strlit("u");
            }
            "u"
        },
        Key::V => {
            proof {
                reveal_strlit("v");
            }
            "v"
        },
        Key::W => {
            proof {
                reveal_strlit("w");
            }
            "w"
        },
        Key::X => {
            proof {
                reveal_strlit("x");
            }
            "x"
        },
        Key::Y => {
            proof {
                reveal_strlit("y");
            }
            "y"
        },
        Key::Z => {
            proof {
                reveal_strlit("z");
            }
            "z"
        },
        Key::Key1 => {
            proof {
                reveal_strlit("1");
            }
            "1"
        },
        Key::Key2 => {
            proof {
                reveal_strlit("2");
            }
            "2"
        },
        Key::Key3 => {
            proof {
                reveal_strlit("3");
            }
            "3"
        },
        Key::Key4 => {
            proof {
                reveal_strlit("4");
            }
            "4"
        },
        Key::Key5 => {
            proof {
                reveal_strlit("5");
            }
            "5"
        },
        Key::Key6 => {
            proof {
                reveal_strlit("6");
            }
            "6"
        },
        Key::Key7 => {
            proof {
                reveal_strlit("7");
            }
            "7"
        },
        Key::Key8 => {
            proof {
                reveal_strlit("8");
            }
            "8"
        },
        Key::Key9 => {
            proof {
                reveal_strlit("9");
            }
            "9"
        },
        Key::Key0 => {
            proof {
                reveal_strlit("0");
            }
            "0"
        },
        Key::Space => {
            proof {
                reveal_strlit("SPC");
            }
            "SPC"
        },
    }
}

/// A pressed key.
#[derive(Debug, Clone, Copy, PartialEq, Eq, Structural, Hash)]
pub struct KeyCode(pub Key);

/// The modifier keys held together with a key.
#[derive(Debug, Clone, Copy, PartialEq, Eq, Structural, Hash)]
pub struct ModifiersState {
    pub ctrl: bool,
    pub alt: bool,
    pub shift: bool,
    pub logo: bool,
}

/// A key chord: a key together with the modifiers held while pressing it.
#[derive(Debug, Clone, Copy, PartialEq, Eq, Structural, Hash)]
pub struct Shortcut {
    pub key_code: KeyCode,
    pub modifiers: ModifiersState,
}

/// The text is not a valid shortcut identifier.
#[derive(Debug, Clone, Copy, PartialEq, Eq, Structural)]
pub struct ShortcutFromStrError;

/// The key that a token names: one letter or digit, or `SPC`.
pub open spec fn key_of_token(t: Seq<char>) -> Option<Key> {
    if t.len() == 1 {
        key_of_char(t[0])
    } else if t == seq!['S', 'P', 'C'] {
        Some(Key::Space)
    } else {
        None
    }
}

/// The pieces of `s` between the separators `-`, in order; there is always
/// at least one, and an empty text has one empty piece.
pub open spec fn split_dash(s: Seq<char>) -> Seq<Seq<char>>
    decreases s.len(),
{
    if s.len() == 0 {
        seq![Seq::empty()]
    } else {
        let init = split_dash(s.drop_last());
        if s.last() == '-' {
            init.push(Seq::empty())
        } else {
            init.update(init.len() - 1, init.last().push(s.last()))
        }
    }
}

/// The tokens that name a modifier: `C` (ctrl), `M` (alt), `S` (shift) and
/// `L` (logo).
pub open spec fn is_modifier_token(t: Seq<char>) -> bool {
    t == seq!['C'] || t == seq!['M'] || t == seq!['S'] || t == seq!['L']
}

/// The modifiers that a list of modifier tokens holds; a token may repeat.
pub open spec fn modifiers_of_tokens(toks: Seq<Seq<char>>) -> ModifiersState {
    ModifiersState {
        ctrl: toks.contains(seq!['C']),
        alt: toks.contains(seq!['M']),
        shift: toks.contains(seq!['S']),
        logo: toks.contains(seq!['L']),
    }
}

/// What a shortcut identifier denotes: every piece before the last names a
/// modifier, in any order, and the last piece names the key. Anything else,
/// the empty text included, denotes no shortcut.
pub open spec fn parse_shortcut(s: Seq<char>) -> Option<Shortcut> {
    let toks = split_dash(s);
    let mods = toks.drop_last();
    if (forall|i: int| 0 <= i < mods.len() ==> is_modifier_token(#[trigger] mods[i]))
        && key_of_token(toks.last()) is Some {
        Some(
            Shortcut {
                key_code: KeyCode(key_of_token(toks.last())->0),
                modifiers: modifiers_of_tokens(mods),
            },
        )
    } else {
        None
    }
}

/// The modifier prefix of the canonical form: `C-`, `M-`, `S-`, `L-`, each
/// present only when held, in that order.
pub open spec fn modifiers_prefix(m: ModifiersState) -> Seq<char> {
    (if m.ctrl { seq!['C', '-'] } else { Seq::empty() })
    + (if m.alt { seq!['M', '-'] } else { Seq::empty() })
    + (if m.shift { seq!['S', '-'] } else { Seq::empty() })
    + (if m.logo { seq!['L', '-'] } else { Seq::empty() })
}

/// The canonical form of a shortcut: the modifier prefix, then the key.
pub open spec fn format_shortcut(sc: Shortcut) -> Seq<char> {
    modifiers_prefix(sc.modifiers) + key_name(sc.key_code.0)
}

impl KeyCode {
    /// Reads a key token: `a`-`z`, `0`-`9` or `SPC`.
    pub fn from_str(value: &str) -> (r: Result<KeyCode, ShortcutFromStrError>)
        ensures
            match key_of_token(value@) {
                Some(k) => r == Ok::<KeyCode, ShortcutFromStrError>(KeyCode(k)),
                None => r is Err,
            },
    {
        let n = value.unicode_len();
        if n == 1 {
            match key_from_char(value.get_char(0)) {
                Some(k) => Ok(KeyCode(k)),
                None => Err(ShortcutFromStrError),
            }
        } else if n == 3 && value.get_char(0) == 'S' && value.get_char(1) == 'P'
            && value.get_char(2) == 'C' {
            proof {
                assert(value@ =~= seq!['S', 'P', 'C']);
            }
            Ok(KeyCode(Key::Space))
        } else {
            proof {
                if n == 3 {
                    assert(value@ != seq!['S', 'P', 'C']) by {
                        if value@ == seq!['S', 'P', 'C'] {
                            assert(value@[0] == 'S' && value@[1] == 'P' && value@[2] == 'C');
                        }
                    }
                }
            }
            Err(ShortcutFromStrError)
        }
    }

    /// The token that names this key.
    pub fn to_string(&self) -> (r: String)
        ensures
            r@ == key_name(self.0),
    {
        key_str(self.0).to_string()
    }
}

impl ShortcutFromStrError {
    /// A message for a user.
    pub fn to_string(&self) -> (r: String)
        ensures
            r@ == "Not a valid shortcut identifier"@,
    {
        "Not a valid shortcut identifier".to_string()
    }
}

proof fn lemma_split_dash_nonempty(s: Seq<char>)
    ensures
        split_dash(s).len() >= 1,
    decreases s.len(),
{
    if s.len() > 0 {
        lemma_split_dash_nonempty(s.drop_last());
    }
}

/// Extending a text by one character extends its pieces accordingly.
proof fn lemma_split_dash_push(s: Seq<char>, c: char)
    ensures
        split_dash(s.push(c)) == (if c == '-' {
            split_dash(s).push(Seq::empty())
        } else {
            split_dash(s).update(split_dash(s).len() - 1, split_dash(s).last().push(c))
        }),
{
    assert(s.push(c).drop_last() =~= s);
}

/// Appending text without a separator extends the last piece.
proof fn lemma_split_dash_append_plain(s: Seq<char>, t: Seq<char>)
    requires
        !t.contains('-'),
    ensures
        split_dash(s + t) == split_dash(s).update(
            split_dash(s).len() - 1,
            split_dash(s).last() + t,
        ),
    decreases t.len(),
{
    lemma_split_dash_nonempty(s);
    if t.len() == 0 {
        assert(s + t =~= s);
        assert(split_dash(s).last() + t =~= split_dash(s).last());
        assert(split_dash(s).update(split_dash(s).len() - 1, split_dash(s).last())
            =~= split_dash(s));
    } else {
        let u = t.drop_last();
        let c = t.last();
        assert(!u.contains('-')) by {
            if u.contains('-') {
                let i = choose|i: int| 0 <= i < u.len() && u[i] == '-';
                assert(t[i] == '-');
            }
        }
        assert(c != '-') by {
            assert(t[t.len() - 1] == c);
        }
        lemma_split_dash_append_plain(s, u);
        assert(s + t =~= (s + u).push(c));
        lemma_split_dash_push(s + u, c);
        assert(split_dash(s).last() + u + seq![c] =~= split_dash(s).last() + t);
        assert((split_dash(s).last() + u).push(c) =~= split_dash(s).last() + t);
        assert(split_dash(s + t) =~= split_dash(s).update(
            split_dash(s).len() - 1,
            split_dash(s).last() + t,
        ));
    }
}

/// The modifier tokens that the canonical form writes, in order.
spec fn modifier_tokens(m: ModifiersState) -> Seq<Seq<char>> {
    (if m.ctrl { seq![seq!['C']] } else { Seq::empty() })
    + (if m.alt { seq![seq!['M']] } else { Seq::empty() })
    + (if m.shift { seq![seq!['S']] } else { Seq::empty() })
    + (if m.logo { seq![seq!['L']] } else { Seq::empty() })
}

/// Appending one modifier token `x-` to a text whose last piece is empty.
proof fn lemma_split_dash_token(p: Seq<char>, toks: Seq<Seq<char>>, x: char)
    requires
        split_dash(p) == toks.push(Seq::<char>::empty()),
        x != '-',
    ensures
        split_dash(p + seq![x, '-']) == toks.push(seq![x]).push(Seq::<char>::empty()),
{
    assert(p + seq![x, '-'] =~= p.push(x).push('-'));
    lemma_split_dash_push(p, x);
    lemma_split_dash_push(p.push(x), '-');
    assert(Seq::<char>::empty().push(x) =~= seq![x]);
    assert(toks.push(Seq::<char>::empty()).update(toks.len() as int, seq![x]) =~= toks.push(
        seq![x],
    ));
}

proof fn lemma_split_modifiers_prefix(m: ModifiersState)
    ensures
        split_dash(modifiers_prefix(m)) == modifier_tokens(m).push(Seq::<char>::empty()),
{
    let e = Seq::<char>::empty();
    let pre0 = e;
    let t0 = Seq::<Seq<char>>::empty();
    assert(split_dash(pre0) =~= t0.push(e));
    let pre1 = pre0 + (if m.ctrl { seq!['C', '-'] } else { e });
    let t1 = t0 + (if m.ctrl { seq![seq!['C']] } else { Seq::empty() });
    if m.ctrl {
        lemma_split_dash_token(pre0, t0, 'C');
        assert(t0.push(seq!['C']) =~= t1);
    } else {
        assert(pre1 =~= pre0);
        assert(t1 =~= t0);
    }
    let pre2 = pre1 + (if m.alt { seq!['M', '-'] } else { e });
    let t2 = t1 + (if m.alt { seq![seq!['M']] } else { Seq::empty() });
    if m.alt {
        lemma_split_dash_token(pre1, t1, 'M');
        assert(t1.push(seq!['M']) =~= t2);
    } else {
        assert(pre2 =~= pre1);
        assert(t2 =~= t1);
    }
    let pre3 = pre2 + (if m.shift { seq!['S', '-'] } else { e });
    let t3 = t2 + (if m.shift { seq![seq!['S']] } else { Seq::empty() });
    if m.shift {
        lemma_split_dash_token(pre2, t2, 'S');
        assert(t2.push(seq!['S']) =~= t3);
    } else {
        assert(pre3 =~= pre2);
        assert(t3 =~= t2);
    }
    let pre4 = pre3 + (if m.logo { seq!['L', '-'] } else { e });
    let t4 = t3 + (if m.logo { seq![seq!['L']] } else { Seq::empty() });
    if m.logo {
        lemma_split_dash_token(pre3, t3, 'L');
        assert(t3.push(seq!['L']) =~= t4);
    } else {
        assert(pre4 =~= pre3);
        assert(t4 =~= t3);
    }
    assert(pre4 =~= modifiers_prefix(m));
    assert(t4 =~= modifier_tokens(m));
}

proof fn lemma_key_name(k: Key)
    ensures
        !key_name(k).contains('-'),
        key_of_token(key_name(k)) == Some(k),
{
    let n = key_name(k);
    if n.contains('-') {
        let i = choose|i: int| 0 <= i < n.len() && n[i] == '-';
        assert(false);
    }
}

proof fn lemma_modifier_tokens(m: ModifiersState)
    ensures
        forall|i: int|
            0 <= i < modifier_tokens(m).len() ==> is_modifier_token(
                #[trigger] modifier_tokens(m)[i],
            ),
        modifiers_of_tokens(modifier_tokens(m)) == m,
{
    let t = modifier_tokens(m);
    assert(seq!['C'] != seq!['M'] && seq!['C'] != seq!['S'] && seq!['C'] != seq!['L']) by {
        assert(seq!['C'][0] != seq!['M'][0]);
        assert(seq!['C'][0] != seq!['S'][0]);
        assert(seq!['C'][0] != seq!['L'][0]);
    }
    assert(seq!['M'] != seq!['S'] && seq!['M'] != seq!['L'] && seq!['S'] != seq!['L']) by {
        assert(seq!['M'][0] != seq!['S'][0]);
        assert(seq!['M'][0] != seq!['L'][0]);
        assert(seq!['S'][0] != seq!['L'][0]);
    }
    let tc = if m.ctrl { seq![seq!['C']] } else { Seq::<Seq<char>>::empty() };
    let ta = if m.alt { seq![seq!['M']] } else { Seq::<Seq<char>>::empty() };
    let ts = if m.shift { seq![seq!['S']] } else { Seq::<Seq<char>>::empty() };
    let tl = if m.logo { seq![seq!['L']] } else { Seq::<Seq<char>>::empty() };
    assert(t =~= tc + ta + ts + tl);
    assert forall|i: int| 0 <= i < t.len() implies is_modifier_token(#[trigger] t[i]) by {
        if i < tc.len() {
            assert(t[i] == tc[i]);
        } else if i < tc.len() + ta.len() {
            assert(t[i] == ta[i - tc.len()]);
        } else if i < tc.len() + ta.len() + ts.len() {
            assert(t[i] == ts[i - tc.len() - ta.len()]);
        } else {
            assert(t[i] == tl[i - tc.len() - ta.len() - ts.len()]);
        }
    }
    let x = seq!['C'];
    if m.ctrl {
        assert(t[0] == x);
    }
    if t.contains(x) {
        let i = choose|i: int| 0 <= i < t.len() && t[i] == x;
        if i >= tc.len() {
            if i < tc.len() + ta.len() {
                assert(t[i] == ta[i - tc.len()]);
            } else if i < tc.len() + ta.len() + ts.len() {
                assert(t[i] == ts[i - tc.len() - ta.len()]);
            } else {
                assert(t[i] == tl[i - tc.len() - ta.len() - ts.len()]);
            }
        }
    }
    let x = seq!['M'];
    if m.alt {
        assert(t[tc.len() as int] == x);
    }
    if t.contains(x) {
        let i = choose|i: int| 0 <= i < t.len() && t[i] == x;
        if i < tc.len() {
            assert(t[i] == tc[i]);
        } else if i >= tc.len() + ta.len() {
            if i < tc.len() + ta.len() + ts.len() {
                assert(t[i] == ts[i - tc.len() - ta.len()]);
            } else {
                assert(t[i] == tl[i - tc.len() - ta.len() - ts.len()]);
            }
        }
    }
    let x = seq!['S'];
    if m.shift {
        assert(t[(tc.len() + ta.len()) as int] == x);
    }
    if t.contains(x) {
        let i = choose|i: int| 0 <= i < t.len() && t[i] == x;
        if i < tc.len() {
            assert(t[i] == tc[i]);
        } else if i < tc.len() + ta.len() {
            assert(t[i] == ta[i - tc.len()]);
        } else if i >= tc.len() + ta.len() + ts.len() {
            assert(t[i] == tl[i - tc.len() - ta.len() - ts.len()]);
        }
    }
    let x = seq!['L'];
    if m.logo {
        assert(t[(tc.len() + ta.len() + ts.len()) as int] == x);
    }
    if t.contains(x) {
        let i = choose|i: int| 0 <= i < t.len() && t[i] == x;
        if i < tc.len() {
            assert(t[i] == tc[i]);
        } else if i < tc.len() + ta.len() {
            assert(t[i] == ta[i - tc.len()]);
        } else if i < tc.len() + ta.len() + ts.len() {
            assert(t[i] == ts[i - tc.len() - ta.len()]);
        }
    }
}

/// Reading the canonical form of a shortcut gives back that shortcut.
pub proof fn lemma_parse_format(sc: Shortcut)
    ensures
        parse_shortcut(format_shortcut(sc)) == Some(sc),
{
    let m = sc.modifiers;
    let k = sc.key_code.0;
    lemma_split_modifiers_prefix(m);
    lemma_key_name(k);
    lemma_split_dash_append_plain(modifiers_prefix(m), key_name(k));
    let toks = split_dash(format_shortcut(sc));
    let mt = modifier_tokens(m);
    assert(Seq::<char>::empty() + key_name(k) =~= key_name(k));
    assert(toks =~= mt.push(key_name(k)));
    assert(toks.drop_last() =~= mt);
    lemma_modifier_tokens(m);
}

impl Shortcut {
    /// Reads a shortcut identifier such as `C-M-a`: the text is split on `-`,
    /// the last piece names the key and every other piece a modifier. An
    /// unknown key, an unknown modifier token or an empty text is refused.
    pub fn from_str(value: &str) -> (r: Result<Shortcut, ShortcutFromStrError>)
        ensures
            match parse_shortcut(value@) {
                Some(sc) => r == Ok::<Shortcut, ShortcutFromStrError>(sc),
                None => r is Err,
            },
    {
        let ghost s = value@;
        let n = value.unicode_len();
        let mut start: usize = 0;
        let mut i: usize = 0;
        let mut valid = true;
        let mut ctrl = false;
        let mut alt = false;
        let mut shift = false;
        let mut logo = false;
        let ghost mut done: Seq<Seq<char>> = Seq::empty();
        proof {
            assert(s.subrange(0, 0) =~= Seq::<char>::empty());
            assert(split_dash(s.subrange(0, 0)) =~= done.push(s.subrange(0, 0)));
        }
        while i < n
            invariant
                n == s.len(),
                s == value@,
                start <= i <= n,
                split_dash(s.subrange(0, i as int)) == done.push(
                    s.subrange(start as int, i as int),
                ),
                valid == (forall|j: int| 0 <= j < done.len() ==> is_modifier_token(#[trigger] done[j])),
                ctrl == done.contains(seq!['C']),
                alt == done.contains(seq!['M']),
                shift == done.contains(seq!['S']),
                logo == done.contains(seq!['L']),
            decreases n - i,
        {
            let c = value.get_char(i);
            let ghost tok = s.subrange(start as int, i as int);
            proof {
                assert(s.subrange(0, i + 1) =~= s.subrange(0, i as int).push(c));
                lemma_split_dash_push(s.subrange(0, i as int), c);
            }
            if c == '-' {
                let t = if i - start == 1 {
                    value.get_char(start)
                } else {
                    '-'
                };
                proof {
                    if i - start == 1 {
                        assert(tok =~= seq![t]);
                    }
                    if is_modifier_token(tok) {
                        assert(seq!['C'].len() == 1 && seq!['M'].len() == 1);
                        assert(seq!['S'].len() == 1 && seq!['L'].len() == 1);
                        assert(tok.len() == 1);
                        assert(tok[0] == s[start as int]);
                    }
                }
                if t == 'C' {
                    ctrl = true;
                } else if t == 'M' {
                    alt = true;
                } else if t == 'S' {
                    shift = true;
                } else if t == 'L' {
                    logo = true;
                } else {
                    valid = false;
                }
                proof {
                    let d2 = done.push(tok);
                    assert(d2.last() == tok);
                    assert(forall|j: int| 0 <= j < done.len() ==> d2[j] == done[j]);
                    assert(forall|x: Seq<char>| #[trigger] d2.contains(x) <==> done.contains(x) || x == tok) by {
                        assert forall|x: Seq<char>| #[trigger] d2.contains(x) implies done.contains(x) || x == tok by {
                            let j = choose|j: int| 0 <= j < d2.len() && d2[j] == x;
                            if j < done.len() {
                                assert(done[j] == x);
                            }
                        }
                        assert forall|x: Seq<char>| done.contains(x) || x == tok implies #[trigger] d2.contains(x) by {
                            if x == tok {
                                assert(d2[done.len() as int] == x);
                            } else {
                                let j = choose|j: int| 0 <= j < done.len() && done[j] == x;
                                assert(d2[j] == x);
                            }
                        }
                    }
                    if t == 'C' {
                        assert(tok =~= seq!['C']);
                    } else if t == 'M' {
                        assert(tok =~= seq!['M']);
                        assert(tok != seq!['C']) by { assert(tok[0] != seq!['C'][0]); }
                    } else if t == 'S' {
                        assert(tok =~= seq!['S']);
                        assert(tok != seq!['C']) by { assert(tok[0] != seq!['C'][0]); }
                        assert(tok != seq!['M']) by { assert(tok[0] != seq!['M'][0]); }
                    } else if t == 'L' {
                        assert(tok =~= seq!['L']);
                        assert(tok != seq!['C']) by { assert(tok[0] != seq!['C'][0]); }
                        assert(tok != seq!['M']) by { assert(tok[0] != seq!['M'][0]); }
                        assert(tok != seq!['S']) by { assert(tok[0] != seq!['S'][0]); }
                    } else {
                        assert(!is_modifier_token(tok));
                        assert(!d2.contains(seq!['C']) ==> tok != seq!['C']);
                        assert(!d2.contains(seq!['M']) ==> tok != seq!['M']);
                        assert(!d2.contains(seq!['S']) ==> tok != seq!['S']);
                        assert(!d2.contains(seq!['L']) ==> tok != seq!['L']);
                        assert(!is_modifier_token(d2[done.len() as int]));
                    }
                    assert(s.subrange(i + 1, i + 1) =~= Seq::<char>::empty());
                    done = d2;
                }
                start = i + 1;
            } else {
                proof {
                    assert(tok.push(c) =~= s.subrange(start as int, i + 1));
                    assert(done.push(tok).update(done.len() as int, tok.push(c)) =~= done.push(
                        s.subrange(start as int, i + 1),
                    ));
                }
            }
            i = i + 1;
        }
        proof {
            assert(s.subrange(0, n as int) =~= s);
            assert(split_dash(s).drop_last() =~= done);
        }
        let key = KeyCode::from_str(value.substring_char(start, n));
        if !valid {
            return Err(ShortcutFromStrError);
        }
        match key {
            Ok(key_code) => Ok(Shortcut { key_code, modifiers: ModifiersState { ctrl, alt, shift, logo } }),
            Err(e) => Err(e),
        }
    }

    /// The canonical form: `C-`, `M-`, `S-`, `L-` for the held modifiers, in
    /// that order, then the key.
    pub fn to_string(&self) -> (r: String)
        ensures
            r@ == format_shortcut(*self),
    {
        let mut out = String::new();
        if self.modifiers.ctrl {
            proof {
                reveal_strlit("C-");
            }
            out.append("C-");
        }
        if self.modifiers.alt {
            proof {
                reveal_strlit("M-");
            }
            out.append("M-");
        }
        if self.modifiers.shift {
            proof {
                reveal_strlit("S-");
            }
            out.append("S-");
        }
        if self.modifiers.logo {
            proof {
                reveal_strlit("L-");
            }
            out.append("L-");
        }
        out.append(key_str(self.key_code.0));
        proof {
            let m = self.modifiers;
            let e = Seq::<char>::empty();
            assert(modifiers_prefix(m) =~= (if m.ctrl { seq!['C', '-'] } else { e }) + (if m.alt {
                seq!['M', '-']
            } else {
                e
            }) + (if m.shift { seq!['S', '-'] } else { e }) + (if m.logo {
                seq!['L', '-']
            } else {
                e
            }));
        }
        out
    }
}

/// Any text in the canonical grammar, read and written again, is unchanged;
/// the reading succeeds.
pub proof fn lemma_format_parse(s: Seq<char>, sc: Shortcut)
    requires
        s == format_shortcut(sc),
    ensures
        parse_shortcut(s) == Some(sc),
        format_shortcut(parse_shortcut(s)->0) == s,
{
    lemma_parse_format(sc);
}

} // verus!
