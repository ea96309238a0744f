//! Generates unique player nicknames from word lists: an adjective and a noun,
//! with a counter appended when the name is already taken.
use vstd::prelude::*;
use vstd::set_lib::lemma_len_subset;
use rand::Rng;
use crate::string_map::StringMap;
use crate::text::{all_digits, chars_of, decimal, digit_char, is_decimal_of, lemma_decimal_digits, lemma_decimal_is_decimal_of, find_last_space, is_ascii_digit, is_float_literal, is_float_text, is_mantissa, last_space, lemma_last_space, lines, split_lines, string_from_chars, u32_to_string, without_sign};

verus! {

broadcast use vstd::string::group_string_axioms;

/// Every taken name has been taken at least once.
pub open spec fn counts_positive(m: Map<Seq<char>, u32>) -> bool {
    forall|k: Seq<char>| m.contains_key(k) ==> m[k] >= 1
}

/// Every count can still be incremented.
pub open spec fn counts_below_max(m: Map<Seq<char>, u32>) -> bool {
    forall|k: Seq<char>| m.contains_key(k) ==> m[k] < u32::MAX
}

/// `name` followed by a space and `count`.
pub open spec fn with_counter(name: Seq<char>, count: nat) -> Seq<char> {
    name + seq![' '] + decimal(count)
}

/// Registers `name` in the counts `m`, following at most `fuel` further
/// names: the count of `name` goes up by one (from zero when it is new); if
/// it was taken already, the name with the new count appended is registered
/// in turn. Gives the counts after and the name registered last.
pub open spec fn register_steps(m: Map<Seq<char>, u32>, name: Seq<char>, fuel: nat) -> (Map<Seq<char>, u32>, Seq<char>)
    decreases fuel,
{
    let count: int = if m.contains_key(name) { m[name] + 1 } else { 1 };
    let next = m.insert(name, count as u32);
    if count > 1 && fuel > 0 {
        register_steps(next, with_counter(name, count as nat), (fuel - 1) as nat)
    } else {
        (next, name)
    }
}

/// Registering `name`: the chain of names ends within one step more than
/// there are taken names (see [`lemma_register`]).
pub open spec fn register(m: Map<Seq<char>, u32>, name: Seq<char>) -> (Map<Seq<char>, u32>, Seq<char>) {
    register_steps(m, name, m.dom().len() + 1)
}

/// The taken names at least `len` long.
pub open spec fn long_keys(m: Map<Seq<char>, u32>, len: nat) -> Set<Seq<char>> {
    m.dom().filter(|k: Seq<char>| k.len() >= len)
}

proof fn lemma_register_steps(m: Map<Seq<char>, u32>, name: Seq<char>, fuel: nat)
    requires
        m.dom().finite(),
        counts_positive(m),
        forall|k: Seq<char>| m.contains_key(k) && k.len() >= name.len() ==> m[k] < u32::MAX,
        fuel > long_keys(m, name.len()).len(),
    ensures
        ({
            let (after, r) = register_steps(m, name, fuel);
            &&& !m.contains_key(r)
            &&& r.len() >= name.len()
            &&& after.dom() == m.dom().insert(r)
            &&& after[r] == 1
            &&& forall|k: Seq<char>| #[trigger] m.contains_key(k) ==> after[k] == m[k] || after[k] == m[k] + 1
            &&& forall|k: Seq<char>| #[trigger] m.contains_key(k) && k.len() < name.len() ==> after[k] == m[k]
            &&& counts_positive(after)
        }),
    decreases fuel,
{
    lemma_len_subset(long_keys(m, name.len()), m.dom());
    if m.contains_key(name) {
        let count: int = m[name] + 1;
        let next = m.insert(name, count as u32);
        let name2 = with_counter(name, count as nat);
        lemma_decimal_digits(count as nat);
        assert(long_keys(m, name.len()).contains(name));
        assert(next.dom() =~= m.dom());
        assert(long_keys(next, name2.len()).subset_of(long_keys(m, name.len()).remove(name)));
        lemma_len_subset(long_keys(next, name2.len()), long_keys(m, name.len()).remove(name));
        lemma_register_steps(next, name2, (fuel - 1) as nat);
        let (after, r) = register_steps(next, name2, (fuel - 1) as nat);
        assert(register_steps(m, name, fuel) == (after, r));
        assert(after.dom() =~= m.dom().insert(r));
    } else {
        let after = m.insert(name, 1u32);
        assert(after.dom() =~= m.dom().insert(name));
    }
}

/// The name a registration ends on was not taken before and is taken once
/// after; no other taken name goes away, and no count goes down or up by more
/// than one.
pub proof fn lemma_register(m: Map<Seq<char>, u32>, name: Seq<char>)
    requires
        m.dom().finite(),
        counts_positive(m),
        counts_below_max(m),
    ensures
        ({
            let (after, r) = register(m, name);
            &&& !m.contains_key(r)
            &&& after.dom() == m.dom().insert(r)
            &&& after[r] == 1
            &&& forall|k: Seq<char>| #[trigger] m.contains_key(k) ==> after[k] == m[k] || after[k] == m[k] + 1
            &&& counts_positive(after)
            &&& after.dom().finite()
        }),
{
    lemma_len_subset(long_keys(m, name.len()), m.dom());
    lemma_register_steps(m, name, m.dom().len() + 1);
}

/// Two registrations in a row end on two different names.
pub proof fn lemma_register_twice_distinct(m: Map<Seq<char>, u32>, first: Seq<char>, second: Seq<char>)
    requires
        m.dom().finite(),
        counts_positive(m),
        forall|k: Seq<char>| m.contains_key(k) ==> m[k] + 1 < u32::MAX,
    ensures
        register(m, first).1 != register(register(m, first).0, second).1,
{
    lemma_register(m, first);
    let m1 = register(m, first).0;
    lemma_register(m1, second);
}

// ---------------------------------------------------------------------------
// Words
// ---------------------------------------------------------------------------

/// The first character of the upper-case form of `c`, as std's
/// `char::to_uppercase` maps it by the Unicode tables.
pub uninterp spec fn uppercase_first(c: char) -> char;

/// std's `char::to_uppercase`, first character of the mapping (the mapping
/// always has at least one). Stated beyond the name: ASCII lower-case letters
/// map to their ASCII upper-case letter and every other ASCII character maps
/// to itself; for other characters only the name is stated, the Unicode
/// tables are not written out.
#[verifier::external_body]
fn first_uppercase(c: char) -> (r: char)
    ensures
        r == uppercase_first(c),
        'a' <= c <= 'z' ==> r as u32 == c as u32 - 32,
        (c as u32) < 128 && !('a' <= c <= 'z') ==> r == c,
{
    c.to_uppercase().nth(0).unwrap()
}

/// `word` with its first character upper-cased.
pub open spec fn capitalized(word: Seq<char>) -> Seq<char> {
    seq![uppercase_first(word[0])] + word.skip(1)
}

fn capitalize_chars(word: Vec<char>) -> (r: String)
    requires
        word.len() > 0,
    ensures
        r@ == capitalized(word@),
        'a' <= word@[0] <= 'z' ==> r@[0] as u32 == word@[0] as u32 - 32,
        (word@[0] as u32) < 128 && !('a' <= word@[0] <= 'z') ==> r@[0] == word@[0],
{
    let mut v = word;
    let first = first_uppercase(v[0]);
    v.set(0, first);
    assert(v@ =~= capitalized(word@));
    string_from_chars(&v)
}

/// `thing` with its first character upper-cased.
pub fn capitalize(thing: &str) -> (r: String)
    requires
        thing@.len() > 0,
    ensures
        r@ == capitalized(thing@),
        'a' <= thing@[0] <= 'z' ==> r@[0] as u32 == thing@[0] as u32 - 32,
        (thing@[0] as u32) < 128 && !('a' <= thing@[0] <= 'z') ==> r@[0] == thing@[0],
{
    capitalize_chars(chars_of(thing))
}

/// Every line of `text` has a character.
pub open spec fn no_empty_line(text: Seq<char>) -> bool {
    forall|i: int| 0 <= i < lines(text).len() ==> (#[trigger] lines(text)[i]).len() > 0
}

/// The lines of `text`, each capitalized.
pub open spec fn word_list(text: Seq<char>) -> Seq<Seq<char>> {
    lines(text).map_values(|l: Seq<char>| capitalized(l))
}

/// The lines of `string_thing`, each capitalized.
pub fn make_vec(string_thing: &str) -> (r: Vec<String>)
    requires
        no_empty_line(string_thing@),
    ensures
        r.deep_view() == word_list(string_thing@),
{
    let all = split_lines(&chars_of(string_thing));
    let ghost ls = lines(string_thing@);
    let mut string_vec: Vec<String> = Vec::new();
    let mut i: usize = 0;
    while i < all.len()
        invariant
            all.deep_view() == ls,
            ls == lines(string_thing@),
            no_empty_line(string_thing@),
            i <= all.len(),
            string_vec.deep_view() == word_list(string_thing@).take(i as int),
        decreases all.len() - i,
    {
        assert(all[i as int].deep_view() =~= all[i as int]@);
        assert(ls[i as int].len() > 0);
        let line = all[i].clone();
        assert(line@ =~= all[i as int]@);
        let word = capitalize_chars(line);
        let ghost before = string_vec.deep_view();
        string_vec.push(word);
        assert(all.deep_view()[i as int] == all[i as int].deep_view());
        assert(word@ == capitalized(ls[i as int]));
        assert(word_list(string_thing@)[i as int] == capitalized(ls[i as int]));
        assert(string_vec.deep_view() =~= before.push(word@));
        assert(string_vec.deep_view() =~= word_list(string_thing@).take(i + 1));
        i = i + 1;
    }
    assert(word_list(string_thing@).take(all.len() as int) =~= word_list(string_thing@));
    string_vec
}

/// rand's `thread_rng().gen_range(0, len)`: some index below `len`, drawn at
/// random (rand panics on an empty range, so `len` is positive).
#[verifier::external_body]
fn random_index(len: usize) -> (r: usize)
    requires
        len > 0,
    ensures
        r < len,
{
    rand::thread_rng().gen_range(0, len)
}

/// One of the words of `vec`, drawn at random.
fn take_random_elem(vec: &Vec<String>) -> (r: &str)
    requires
        vec.len() > 0,
    ensures
        exists|i: int| 0 <= i < vec.len() && r@ == vec.deep_view()[i],
{
    let i = random_index(vec.len());
    let r = vec[i].as_str();
    assert(r@ == vec.deep_view()[i as int]);
    r
}

// ---------------------------------------------------------------------------
// Taken names
// ---------------------------------------------------------------------------

/// The name under which a taken nickname is registered: when the part after
/// its last space (all of it, when it has no space) reads as a number, the
/// part before that space (nothing, when it has no space); otherwise the whole
/// nickname.
pub open spec fn registered_form(nickname: Seq<char>) -> Seq<char> {
    let k = last_space(nickname);
    if is_float_literal(nickname.skip(k + 1)) {
        if k >= 0 { nickname.take(k) } else { Seq::empty() }
    } else {
        nickname
    }
}

fn registered_form_of(nickname: &String) -> (r: String)
    ensures
        r@ == registered_form(nickname@),
{
    let chars = chars_of(nickname.as_str());
    let n = chars.len();
    proof {
        lemma_last_space(chars@);
    }
    let start: usize = match find_last_space(&chars) {
        Some(k) => k + 1,
        None => 0,
    };
    assert(chars@.subrange(start as int, n as int) =~= chars@.skip(last_space(chars@) + 1));
    if is_float_text(&chars, start, n) {
        let mut prefix: Vec<char> = Vec::new();
        if start > 0 {
            let mut i: usize = 0;
            while i < start - 1
                invariant
                    start <= n == chars.len(),
                    i <= start - 1,
                    prefix@ == chars@.take(i as int),
                decreases start - 1 - i,
            {
                prefix.push(chars[i]);
                assert(prefix@ =~= chars@.take(i + 1));
                i = i + 1;
            }
        } else {
            assert(prefix@ =~= Seq::<char>::empty());
        }
        string_from_chars(&prefix)
    } else {
        nickname.clone()
    }
}

/// The counts after registering each nickname of `names` in turn, each in its
/// registered form.
pub open spec fn register_all(m: Map<Seq<char>, u32>, names: Seq<Seq<char>>) -> Map<Seq<char>, u32>
    decreases names.len(),
{
    if names.len() == 0 {
        m
    } else {
        register(register_all(m, names.drop_last()), registered_form(names.last())).0
    }
}

/// A registered name is taken afterwards, and every name taken before stays
/// taken.
pub proof fn lemma_register_takes_name(m: Map<Seq<char>, u32>, name: Seq<char>)
    requires
        m.dom().finite(),
        counts_positive(m),
        counts_below_max(m),
    ensures
        register(m, name).0.contains_key(name),
        m.dom().subset_of(register(m, name).0.dom()),
{
    lemma_register(m, name);
}

/// After registering a list of taken nicknames, the registered form of each
/// of them is taken, every name taken before stays taken, and no count has
/// grown by more than the length of the list.
pub proof fn lemma_register_all(m: Map<Seq<char>, u32>, names: Seq<Seq<char>>)
    requires
        m.dom().finite(),
        counts_positive(m),
        forall|k: Seq<char>| m.contains_key(k) ==> m[k] + names.len() < u32::MAX,
        names.len() < u32::MAX,
    ensures
        forall|i: int| 0 <= i < names.len() ==> register_all(m, names).contains_key(
            registered_form(#[trigger] names[i]),
        ),
        m.dom().subset_of(register_all(m, names).dom()),
        register_all(m, names).dom().finite(),
        counts_positive(register_all(m, names)),
        forall|k: Seq<char>| #[trigger] register_all(m, names).contains_key(k) ==> register_all(m, names)[k] <= (
        if m.contains_key(k) {
            m[k] as int
        } else {
            0
        }) + names.len(),
    decreases names.len(),
{
    if names.len() > 0 {
        let front = names.drop_last();
        lemma_register_all(m, front);
        let before = register_all(m, front);
        let form = registered_form(names.last());
        assert(counts_below_max(before)) by {
            assert forall|k: Seq<char>| before.contains_key(k) implies before[k] < u32::MAX by {
                if m.contains_key(k) {
                    assert(before[k] <= m[k] + front.len());
                }
            }
        }
        lemma_register(before, form);
        lemma_register_takes_name(before, form);
        let after = register_all(m, names);
        assert(after == register(before, form).0);
        assert forall|i: int| 0 <= i < names.len() implies after.contains_key(registered_form(#[trigger] names[i])) by {
            if i < names.len() - 1 {
                assert(front[i] == names[i]);
                assert(before.contains_key(registered_form(front[i])));
            }
        }
        assert forall|k: Seq<char>| #[trigger] after.contains_key(k) implies after[k] <= (if m.contains_key(k) {
            m[k] as int
        } else {
            0
        }) + names.len() by {
            if before.contains_key(k) {
                assert(after[k] <= before[k] + 1);
            }
        }
    }
}

/// The adjective and noun of a nickname, with a space between.
pub open spec fn nickname_of(adjective: Seq<char>, noun: Seq<char>) -> Seq<char> {
    adjective + seq![' '] + noun
}

fn nickname_string(adjective: &str, noun: &str) -> (r: String)
    ensures
        r@ == nickname_of(adjective@, noun@),
{
    let mut nickname = String::from_str(adjective);
    nickname.append(" ");
    nickname.append(noun);
    proof {
        reveal_strlit(" ");
        assert(nickname@ =~= nickname_of(adjective@, noun@));
    }
    nickname
}

/// Registers `nickname`; if it is taken, registers it with its new count
/// appended instead, and so on. Gives the name registered last.
fn register_in(taken: &mut StringMap<u32>, nickname: String) -> (r: String)
    requires
        counts_positive(old(taken)@),
        counts_below_max(old(taken)@),
    ensures
        counts_positive(final(taken)@),
        (final(taken)@, r@) == register(old(taken)@, nickname@),
{
    let ghost m0 = taken@;
    let ghost n0 = nickname@;
    let ghost fuel0: nat = m0.dom().len() + 1;
    proof {
        taken.lemma_finite();
        lemma_len_subset(long_keys(m0, n0.len()), m0.dom());
    }
    let ghost mut fuel: nat = fuel0;
    let mut name = nickname;
    loop
        invariant
            taken@.dom().finite(),
            counts_positive(taken@),
            forall|k: Seq<char>|
                taken@.contains_key(k) && k.len() >= name@.len() ==> taken@[k] < u32::MAX,
            fuel > long_keys(taken@, name@.len()).len(),
            register_steps(m0, n0, fuel0) == register_steps(taken@, name@, fuel),
            m0 == old(taken)@,
            m0.dom().finite(),
            counts_positive(m0),
            counts_below_max(m0),
            n0 == nickname@,
            fuel0 == m0.dom().len() + 1,
        decreases fuel,
    {
        let ghost before = taken@;
        proof {
            lemma_len_subset(long_keys(before, name@.len()), before.dom());
        }
        let count: u32 = match taken.get(name.as_str()) {
            Some(c) => *c + 1,
            None => 1,
        };
        taken.insert(name.clone(), count);
        if count > 1 {
            let mut next = name.clone();
            next.append(" ");
            next.append(u32_to_string(count).as_str());
            proof {
                reveal_strlit(" ");
                let after = taken@;
                assert(next@ =~= with_counter(name@, count as nat));
                lemma_decimal_digits(count as nat);
                assert(long_keys(before, name@.len()).contains(name@));
                assert(after.dom() =~= before.dom());
                assert(long_keys(after, next@.len()).subset_of(long_keys(before, name@.len()).remove(name@)));
                lemma_len_subset(long_keys(after, next@.len()), long_keys(before, name@.len()).remove(name@));
                assert(after.dom().finite());
                fuel = (fuel - 1) as nat;
            }
            name = next;
        } else {
            proof {
                lemma_register(m0, n0);
            }
            return name;
        }
    }
}

/// Registers each taken nickname in its registered form.
fn register_all_in(taken: &mut StringMap<u32>, taken_nicknames: Vec<String>)
    requires
        counts_positive(old(taken)@),
        taken_nicknames.len() < u32::MAX,
        forall|k: Seq<char>| old(taken)@.contains_key(k) ==> old(taken)@[k] + taken_nicknames.len() < u32::MAX,
    ensures
        counts_positive(final(taken)@),
        final(taken)@ == register_all(old(taken)@, taken_nicknames.deep_view()),
{
    let ghost m0 = taken@;
    let ghost names = taken_nicknames.deep_view();
    let n = taken_nicknames.len();
    let mut i: usize = 0;
    assert(names.take(0) =~= Seq::<Seq<char>>::empty());
    assert forall|k: Seq<char>| m0.contains_key(k) implies m0[k] + n < u32::MAX by {
        assert(old(taken)@.contains_key(k));
    }
    while i < n
        invariant
            n == taken_nicknames.len() < u32::MAX,
            names == taken_nicknames.deep_view(),
            i <= n,
            counts_positive(taken@),
            m0 == old(taken)@,
            forall|k: Seq<char>| m0.contains_key(k) ==> m0[k] + n < u32::MAX,
            taken@ == register_all(m0, names.take(i as int)),
            forall|k: Seq<char>|
                #[trigger] taken@.contains_key(k) ==> taken@[k] <= (if m0.contains_key(k) {
                    m0[k] as int
                } else {
                    0
                }) + i,
        decreases n - i,
    {
        let ghost before = taken@;
        let name = registered_form_of(&taken_nicknames[i]);
        proof {
            taken.lemma_finite();
            assert(counts_below_max(before)) by {
                assert forall|k: Seq<char>| before.contains_key(k) implies before[k] < u32::MAX by {
                    if m0.contains_key(k) {
                        assert(before[k] <= m0[k] + i);
                    }
                }
            }
            lemma_register(before, name@);
        }
        register_in(taken, name);
        proof {
            assert(names.take(i + 1).drop_last() =~= names.take(i as int));
            assert(names.take(i + 1).last() == names[i as int]);
            let after = taken@;
            assert forall|k: Seq<char>| #[trigger] after.contains_key(k) implies after[k] <= (if m0.contains_key(k) {
                m0[k] as int
            } else {
                0
            }) + i + 1 by {
                if before.contains_key(k) {
                    assert(after[k] <= before[k] + 1);
                }
            }
        }
        i = i + 1;
    }
    assert(names.take(n as int) =~= names);
}

// ---------------------------------------------------------------------------
// The generator
// ---------------------------------------------------------------------------

/// Nickname generator: word lists to draw from and how often each name has
/// been taken.
pub struct NicknameGenerator {
    adjectives: Vec<String>,
    nouns: Vec<String>,
    taken_names: StringMap<u32>,
}

impl NicknameGenerator {
    /// The adjectives to draw from.
    pub closed spec fn adjectives(&self) -> Seq<Seq<char>> {
        self.adjectives.deep_view()
    }

    /// The nouns to draw from.
    pub closed spec fn nouns(&self) -> Seq<Seq<char>> {
        self.nouns.deep_view()
    }

    /// How often each taken name has been taken.
    pub closed spec fn taken(&self) -> Map<Seq<char>, u32> {
        self.taken_names@
    }

    #[verifier::type_invariant]
    closed spec fn counts_are_positive(&self) -> bool {
        counts_positive(self.taken_names@)
    }

    /// The taken names are finitely many.
    pub proof fn lemma_taken_finite(&self)
        ensures
            self.taken().dom().finite(),
    {
        self.taken_names.lemma_finite();
    }

    /// Registers `nickname`; if it is taken, registers it with its new count
    /// appended instead, and so on. Gives the name registered last.
    fn register_nickname(&mut self, nickname: String) -> (r: String)
        requires
            counts_below_max(old(self).taken()),
        ensures
            (final(self).taken(), r@) == register(old(self).taken(), nickname@),
            final(self).adjectives() == old(self).adjectives(),
            final(self).nouns() == old(self).nouns(),
    {
        proof {
            use_type_invariant(&*self);
        }
        let mut taken: StringMap<u32> = StringMap::new();
        std::mem::swap(&mut taken, &mut self.taken_names);
        let final_nickname = register_in(&mut taken, nickname);
        self.taken_names = taken;
        final_nickname
    }

    /// Registers each taken nickname in its registered form.
    fn set_taken_nicknames(&mut self, taken_nicknames: Vec<String>)
        requires
            taken_nicknames.len() < u32::MAX,
            forall|k: Seq<char>|
                old(self).taken().contains_key(k) ==> old(self).taken()[k] + taken_nicknames.len() < u32::MAX,
        ensures
            final(self).taken() == register_all(old(self).taken(), taken_nicknames.deep_view()),
            final(self).adjectives() == old(self).adjectives(),
            final(self).nouns() == old(self).nouns(),
    {
        proof {
            use_type_invariant(&*self);
        }
        let mut taken: StringMap<u32> = StringMap::new();
        std::mem::swap(&mut taken, &mut self.taken_names);
        assert forall|k: Seq<char>| taken@.contains_key(k) implies taken@[k] + taken_nicknames.len() < u32::MAX by {
            assert(old(self).taken().contains_key(k));
        }
        register_all_in(&mut taken, taken_nicknames);
        self.taken_names = taken;
    }

    /// A generator drawing from the lines of the two word lists (capitalized)
    /// that has registered each of `taken_nicknames`.
    pub fn new(adjectives_string: &str, nouns_string: &str, taken_nicknames: Vec<String>) -> (r: Self)
        requires
            no_empty_line(adjectives_string@),
            no_empty_line(nouns_string@),
            taken_nicknames.len() < u32::MAX,
        ensures
            r.adjectives() == word_list(adjectives_string@),
            r.nouns() == word_list(nouns_string@),
            r.taken() == register_all(Map::empty(), taken_nicknames.deep_view()),
            counts_positive(r.taken()),
            r.taken().dom().finite(),
    {
        let mut output = NicknameGenerator {
            adjectives: make_vec(adjectives_string),
            nouns: make_vec(nouns_string),
            taken_names: StringMap::new(),
        };
        output.set_taken_nicknames(taken_nicknames);
        proof {
            use_type_invariant(&output);
            output.taken_names.lemma_finite();
        }
        output
    }

    /// Whether every count can still be incremented, so that a nickname can
    /// be generated.
    pub fn has_counter_room(&self) -> (r: bool)
        ensures
            r == counts_below_max(self.taken()),
    {
        self.taken_names.all_values_below(u32::MAX)
    }

    /// Registers the nickname made of `adjective` and `noun` and gives the
    /// name registered last.
    pub fn generate_nickname_from(&mut self, adjective: &str, noun: &str) -> (r: String)
        requires
            counts_below_max(old(self).taken()),
        ensures
            counts_positive(final(self).taken()),
            final(self).taken().dom().finite(),
            (final(self).taken(), r@) == register(old(self).taken(), nickname_of(adjective@, noun@)),
            !old(self).taken().contains_key(r@),
            final(self).taken().dom() == old(self).taken().dom().insert(r@),
            final(self).taken()[r@] == 1,
            final(self).adjectives() == old(self).adjectives(),
            final(self).nouns() == old(self).nouns(),
    {
        let nickname = nickname_string(adjective, noun);
        proof {
            use_type_invariant(&*self);
            self.taken_names.lemma_finite();
            lemma_register(self.taken_names@, nickname@);
        }
        let final_nickname = self.register_nickname(nickname);
        final_nickname
    }

    /// Registers a nickname made of a random adjective and a random noun and
    /// gives the name registered last.
    pub fn generate_nickname(&mut self) -> (r: String)
        requires
            old(self).adjectives().len() > 0,
            old(self).nouns().len() > 0,
            counts_below_max(old(self).taken()),
        ensures
            counts_positive(final(self).taken()),
            final(self).taken().dom().finite(),
            exists|i: int, j: int|
                0 <= i < old(self).adjectives().len() && 0 <= j < old(self).nouns().len() && (final(self).taken(), r@)
                    == register(old(self).taken(), nickname_of(old(self).adjectives()[i], old(self).nouns()[j])),
            !old(self).taken().contains_key(r@),
            final(self).taken().dom() == old(self).taken().dom().insert(r@),
            final(self).taken()[r@] == 1,
            final(self).adjectives() == old(self).adjectives(),
            final(self).nouns() == old(self).nouns(),
    {
        let nickname = {
            let adj: &str = take_random_elem(&self.adjectives);
            let noun: &str = take_random_elem(&self.nouns);
            nickname_string(adj, noun)
        };
        proof {
            use_type_invariant(&*self);
            self.taken_names.lemma_finite();
            lemma_register(self.taken_names@, nickname@);
        }
        let final_nickname = self.register_nickname(nickname);
        final_nickname
    }
}

// ---------------------------------------------------------------------------
// What the generator hands out
// ---------------------------------------------------------------------------

proof fn lemma_decimal_injective(a: nat, b: nat)
    requires
        decimal(a) == decimal(b),
    ensures
        a == b,
    decreases a,
{
    lemma_decimal_digits(a);
    lemma_decimal_digits(b);
    if a >= 10 && b >= 10 {
        assert(decimal(a).drop_last() =~= decimal(a / 10));
        assert(decimal(b).drop_last() =~= decimal(b / 10));
        lemma_decimal_injective(a / 10, b / 10);
        assert(decimal(a).last() == digit_char(a % 10));
        assert(decimal(b).last() == digit_char(b % 10));
        lemma_digit_char_injective(a % 10, b % 10);
    } else if a < 10 && b < 10 {
        assert(decimal(a)[0] == digit_char(a));
        assert(decimal(b)[0] == digit_char(b));
        lemma_digit_char_injective(a, b);
    }
}

proof fn lemma_digit_char_injective(x: nat, y: nat)
    requires
        x < 10,
        y < 10,
        digit_char(x) == digit_char(y),
    ensures
        x == y,
{
}

/// A name with a counter appended is registered under the name itself.
proof fn lemma_counter_form(name: Seq<char>, count: nat)
    ensures
        registered_form(with_counter(name, count)) == name,
        with_counter(name, count).len() > name.len(),
        with_counter(name, count).skip(name.len() + 1int) == decimal(count),
{
    let s = with_counter(name, count);
    let d = decimal(count);
    let k = name.len() as int;
    lemma_decimal_digits(count);
    lemma_last_space(s);
    assert(s[k] == ' ');
    assert forall|j: int| k < j < s.len() implies s[j] != ' ' by {
        assert(s[j] == d[j - k - 1]);
        assert(is_ascii_digit(d[j - k - 1]));
    }
    assert(last_space(s) == k);
    assert(s.skip(k + 1) =~= d);
    assert(is_ascii_digit(d[0]));
    assert(without_sign(d) == d);
    assert(is_mantissa(d));
    assert(is_float_literal(d));
    assert(s.take(k) =~= name);
}

proof fn lemma_counter_injective(name: Seq<char>, a: nat, b: nat)
    requires
        with_counter(name, a) == with_counter(name, b),
    ensures
        a == b,
{
    lemma_counter_form(name, a);
    lemma_counter_form(name, b);
    lemma_decimal_injective(a, b);
}

/// `base`, then `base` with the counters 2 up to `n` appended: the names a
/// generator hands out when asked `n` times for `base`.
pub open spec fn numbered_list(base: Seq<char>, n: nat) -> Seq<Seq<char>> {
    Seq::new(n, |i: int| if i == 0 { base } else { with_counter(base, (i + 1) as nat) })
}

/// The numbered lists of several base names, one after the other; each entry
/// is a base name and how many names its list has.
pub open spec fn numbered_lists(families: Seq<(Seq<char>, nat)>) -> Seq<Seq<char>>
    decreases families.len(),
{
    if families.len() == 0 {
        Seq::empty()
    } else {
        numbered_lists(families.drop_last()) + numbered_list(families.last().0, families.last().1)
    }
}

proof fn lemma_register_all_append(m: Map<Seq<char>, u32>, first: Seq<Seq<char>>, then: Seq<Seq<char>>)
    ensures
        register_all(m, first + then) == register_all(register_all(m, first), then),
    decreases then.len(),
{
    if then.len() == 0 {
        assert(first + then =~= first);
    } else {
        assert((first + then).drop_last() =~= first + then.drop_last());
        assert((first + then).last() == then.last());
        lemma_register_all_append(m, first, then.drop_last());
    }
}

/// Registering the numbered list of a base name that no taken name is
/// registered under takes every name of the list and leaves the other names
/// as they were.
proof fn lemma_register_numbered_list(m: Map<Seq<char>, u32>, base: Seq<char>, n: nat)
    requires
        m.dom().finite(),
        counts_positive(m),
        n < u32::MAX,
        registered_form(base) == base,
        forall|k: Seq<char>| m.contains_key(k) ==> registered_form(k) != base,
    ensures
        ({
            let after = register_all(m, numbered_list(base, n));
            &&& forall|i: int| 0 <= i < n ==> after.contains_key(#[trigger] numbered_list(base, n)[i])
            &&& forall|k: Seq<char>| #[trigger] m.contains_key(k) ==> after.contains_key(k) && after[k] == m[k]
            &&& forall|k: Seq<char>|
                #[trigger] after.contains_key(k) && !m.contains_key(k) ==> registered_form(k) == base && after[k] <= n
            &&& (n > 0 ==> after.contains_key(base) && after[base] == n)
            &&& (n == 0 ==> !after.contains_key(base))
            &&& forall|j: nat| j > n ==> !after.contains_key(#[trigger] with_counter(base, j))
            &&& counts_positive(after)
            &&& after.dom().finite()
        }),
    decreases n,
{
    let list = numbered_list(base, n);
    if n == 0 {
        assert(list =~= Seq::<Seq<char>>::empty());
        assert forall|j: nat| j > n implies !m.contains_key(#[trigger] with_counter(base, j)) by {
            lemma_counter_form(base, j);
        }
    } else {
        let prev_list = numbered_list(base, (n - 1) as nat);
        lemma_register_numbered_list(m, base, (n - 1) as nat);
        let prev = register_all(m, prev_list);
        assert(list.drop_last() =~= prev_list);
        if n >= 2 {
            assert(list.last() == with_counter(base, n));
            lemma_counter_form(base, n);
        }
        assert(registered_form(list.last()) == base);
        assert(register_all(m, list) == register(prev, base).0);
        let after = register_all(m, list);
        if n == 1 {
            assert(!prev.contains_key(base));
            assert(register_steps(prev, base, prev.dom().len() + 1) == (prev.insert(base, 1u32), base));
            assert(after == prev.insert(base, 1u32));
        } else {
            let next = prev.insert(base, n as u32);
            let numbered = with_counter(base, n);
            assert(!prev.contains_key(numbered));
            assert(!next.contains_key(numbered));
            assert(register_steps(next, numbered, prev.dom().len()) == (next.insert(numbered, 1u32), numbered));
            assert(register_steps(prev, base, prev.dom().len() + 1) == (next.insert(numbered, 1u32), numbered));
            assert(after == next.insert(numbered, 1u32));
        }
        assert forall|j: nat| j > n implies !after.contains_key(#[trigger] with_counter(base, j)) by {
            lemma_counter_form(base, j);
            assert(!prev.contains_key(with_counter(base, j)));
            if j != n && n >= 2 && with_counter(base, j) == with_counter(base, n) {
                lemma_counter_injective(base, j, n);
            }
        }
        assert forall|i: int| 0 <= i < n implies after.contains_key(#[trigger] list[i]) by {
            if i < n - 1 {
                assert(list[i] == prev_list[i]);
            }
        }
        assert forall|k: Seq<char>| #[trigger] after.contains_key(k) && !m.contains_key(k) implies registered_form(k)
            == base && after[k] <= n by {
            if n >= 2 && k == with_counter(base, n) {
                lemma_counter_form(base, n);
            }
        }
    }
}

/// Registering the numbered lists of several different base names, none of
/// which a taken name is registered under, takes every name of the lists and
/// leaves the other names as they were.
proof fn lemma_register_numbered_lists(m: Map<Seq<char>, u32>, families: Seq<(Seq<char>, nat)>)
    requires
        m.dom().finite(),
        counts_positive(m),
        numbered_lists(families).len() < u32::MAX,
        forall|i: int| 0 <= i < families.len() ==> registered_form(#[trigger] families[i].0) == families[i].0,
        forall|i: int, j: int| 0 <= i < j < families.len() ==> families[i].0 != families[j].0,
        forall|k: Seq<char>, i: int|
            #![trigger m.contains_key(k), families[i]]
            m.contains_key(k) && 0 <= i < families.len() ==> registered_form(k) != families[i].0,
    ensures
        ({
            let list = numbered_lists(families);
            let after = register_all(m, list);
            &&& forall|t: int| 0 <= t < list.len() ==> after.contains_key(#[trigger] list[t])
            &&& forall|k: Seq<char>| #[trigger] m.contains_key(k) ==> after.contains_key(k) && after[k] == m[k]
            &&& forall|k: Seq<char>|
                #[trigger] after.contains_key(k) && !m.contains_key(k) ==> after[k] <= list.len() && exists|i: int|
                    0 <= i < families.len() && registered_form(k) == #[trigger] families[i].0
            &&& counts_positive(after)
            &&& after.dom().finite()
        }),
    decreases families.len(),
{
    let list = numbered_lists(families);
    if families.len() == 0 {
        assert(list =~= Seq::<Seq<char>>::empty());
    } else {
        let front = families.drop_last();
        let last = families.last();
        let front_list = numbered_lists(front);
        let last_list = numbered_list(last.0, last.1);
        assert forall|i: int| 0 <= i < front.len() implies registered_form(#[trigger] front[i].0) == front[i].0 by {
            assert(front[i] == families[i]);
        }
        assert forall|i: int, j: int| 0 <= i < j < front.len() implies front[i].0 != front[j].0 by {
            assert(front[i] == families[i]);
            assert(front[j] == families[j]);
        }
        assert forall|k: Seq<char>, i: int|
            #![trigger m.contains_key(k), front[i]]
            m.contains_key(k) && 0 <= i < front.len() implies registered_form(k) != front[i].0 by {
            assert(front[i] == families[i]);
        }
        lemma_register_numbered_lists(m, front);
        let mid = register_all(m, front_list);
        let last_index = families.len() - 1;
        assert(families[last_index] == last);
        assert forall|k: Seq<char>| mid.contains_key(k) implies registered_form(k) != last.0 by {
            if m.contains_key(k) {
                assert(registered_form(k) != families[last_index].0);
            } else {
                let i = choose|i: int| 0 <= i < front.len() && registered_form(k) == #[trigger] front[i].0;
                assert(front[i] == families[i]);
            }
        }
        lemma_register_numbered_list(mid, last.0, last.1);
        lemma_register_all_append(m, front_list, last_list);
        let after = register_all(m, list);
        assert(after == register_all(mid, last_list));
        assert forall|t: int| 0 <= t < list.len() implies after.contains_key(#[trigger] list[t]) by {
            if t < front_list.len() {
                assert(list[t] == front_list[t]);
            } else {
                assert(list[t] == last_list[t - front_list.len()]);
            }
        }
        assert forall|k: Seq<char>| #[trigger] after.contains_key(k) && !m.contains_key(k) implies after[k] <= list.len()
            && exists|i: int| 0 <= i < families.len() && registered_form(k) == #[trigger] families[i].0 by {
            if mid.contains_key(k) {
                let i = choose|i: int| 0 <= i < front.len() && registered_form(k) == #[trigger] front[i].0;
                assert(front[i] == families[i]);
            } else {
                assert(registered_form(k) == families[last_index].0);
            }
        }
    }
}

/// The counts after registering each name of `names` in turn (as given,
/// without taking a registered form), and the names the registrations ended
/// on, in order: what a generator hands out when asked for these nicknames.
pub open spec fn register_seq(m: Map<Seq<char>, u32>, names: Seq<Seq<char>>) -> (Map<Seq<char>, u32>, Seq<Seq<char>>)
    decreases names.len(),
{
    if names.len() == 0 {
        (m, Seq::empty())
    } else {
        let (before, handed) = register_seq(m, names.drop_last());
        let (after, r) = register(before, names.last());
        (after, handed.push(r))
    }
}

/// Registrations one after another end on names that were not taken before
/// and that are all different, and they stay taken.
pub proof fn lemma_register_seq(m: Map<Seq<char>, u32>, names: Seq<Seq<char>>)
    requires
        m.dom().finite(),
        counts_positive(m),
        names.len() < u32::MAX,
        forall|k: Seq<char>| m.contains_key(k) ==> m[k] + names.len() < u32::MAX,
    ensures
        ({
            let (after, handed) = register_seq(m, names);
            &&& handed.len() == names.len()
            &&& forall|i: int| 0 <= i < handed.len() ==> !m.contains_key(#[trigger] handed[i]) && after.contains_key(handed[i])
            &&& forall|i: int, j: int| 0 <= i < j < handed.len() ==> handed[i] != handed[j]
            &&& m.dom().subset_of(after.dom())
            &&& after.dom().finite()
            &&& counts_positive(after)
            &&& forall|k: Seq<char>| #[trigger] after.contains_key(k) ==> after[k] <= (if m.contains_key(k) {
                m[k] as int
            } else {
                0
            }) + names.len()
        }),
    decreases names.len(),
{
    if names.len() > 0 {
        let front = names.drop_last();
        lemma_register_seq(m, front);
        let (before, handed) = register_seq(m, front);
        assert(counts_below_max(before)) by {
            assert forall|k: Seq<char>| before.contains_key(k) implies before[k] < u32::MAX by {
                if m.contains_key(k) {
                    assert(before[k] <= m[k] + front.len());
                }
            }
        }
        lemma_register(before, names.last());
        let (after, r) = register(before, names.last());
        let all = handed.push(r);
        assert(register_seq(m, names) == (after, all));
        assert forall|i: int| 0 <= i < all.len() implies !m.contains_key(#[trigger] all[i]) && after.contains_key(all[i]) by {
            if i < handed.len() {
                assert(all[i] == handed[i]);
            }
        }
        assert forall|i: int, j: int| 0 <= i < j < all.len() implies all[i] != all[j] by {
            assert(all[i] == handed[i]);
            if j < handed.len() {
                assert(all[j] == handed[j]);
            }
        }
        assert forall|k: Seq<char>| #[trigger] after.contains_key(k) implies after[k] <= (if m.contains_key(k) {
            m[k] as int
        } else {
            0
        }) + names.len() by {
            if before.contains_key(k) {
                assert(after[k] <= before[k] + 1);
            }
        }
    }
}

/// A generator started on taken nicknames that are, for each of several
/// different base names, the base name followed by its numbered forms 2 up
/// to some count (a base name being one that is registered under itself, as
/// "Bad Man" is and "Bad Man 2" is not), and then asked for any nicknames in
/// turn, never hands out one of the taken nicknames and never the same
/// nickname twice.
pub proof fn lemma_handed_out_nicknames_are_new(families: Seq<(Seq<char>, nat)>, requests: Seq<Seq<char>>)
    requires
        forall|i: int| 0 <= i < families.len() ==> registered_form(#[trigger] families[i].0) == families[i].0,
        forall|i: int, j: int| 0 <= i < j < families.len() ==> families[i].0 != families[j].0,
        numbered_lists(families).len() + requests.len() < u32::MAX,
    ensures
        ({
            let taken = numbered_lists(families);
            let handed = register_seq(register_all(Map::empty(), taken), requests).1;
            &&& handed.len() == requests.len()
            &&& forall|i: int, j: int| 0 <= i < j < handed.len() ==> handed[i] != handed[j]
            &&& forall|i: int, t: int| 0 <= i < handed.len() && 0 <= t < taken.len() ==> handed[i] != taken[t]
        }),
{
    let taken = numbered_lists(families);
    let empty = Map::<Seq<char>, u32>::empty();
    lemma_register_numbered_lists(empty, families);
    let start = register_all(empty, taken);
    assert forall|k: Seq<char>| start.contains_key(k) implies start[k] + requests.len() < u32::MAX by {
        assert(start[k] <= taken.len());
    }
    lemma_register_seq(start, requests);
    let handed = register_seq(start, requests).1;
    assert forall|i: int, t: int| 0 <= i < handed.len() && 0 <= t < taken.len() implies handed[i] != taken[t] by {
        assert(start.contains_key(taken[t]));
        assert(!start.contains_key(handed[i]));
    }
}

/// A nickname that is not taken yet is handed out as it is: the adjective,
/// one space, and the whole noun, whatever their lengths.
pub proof fn lemma_fresh_nickname_is_adjective_space_noun(
    m: Map<Seq<char>, u32>,
    adjective: Seq<char>,
    noun: Seq<char>,
)
    requires
        !m.contains_key(adjective + seq![' '] + noun),
    ensures
        ({
            let r = register(m, nickname_of(adjective, noun)).1;
            &&& r.len() == adjective.len() + 1 + noun.len()
            &&& r.take(adjective.len() as int) == adjective
            &&& r[adjective.len() as int] == ' '
            &&& r.skip(adjective.len() + 1int) == noun
        }),
{
    let name = adjective + seq![' '] + noun;
    assert(nickname_of(adjective, noun) =~= name);
    assert(register_steps(m, name, m.dom().len() + 1) == (m.insert(name, 1u32), name));
    assert(name.take(adjective.len() as int) =~= adjective);
    assert(name.skip(adjective.len() + 1int) =~= noun);
}

/// A taken name is handed out with its next count appended: the name, one
/// space, and the decimal text of the number of times it has now been asked
/// for, when that numbered name is free.
pub proof fn lemma_taken_nickname_gets_next_count(m: Map<Seq<char>, u32>, name: Seq<char>)
    requires
        counts_positive(m),
        m.contains_key(name),
        m[name] < u32::MAX,
        !m.contains_key(name + seq![' '] + decimal((m[name] + 1) as nat)),
    ensures
        ({
            let r = register(m, name).1;
            &&& r.len() > name.len() + 1
            &&& r.take(name.len() as int) == name
            &&& r[name.len() as int] == ' '
            &&& is_decimal_of(r.skip(name.len() + 1int), (m[name] + 1) as nat)
        }),
{
    let count: int = m[name] + 1;
    let next = m.insert(name, count as u32);
    let numbered = with_counter(name, count as nat);
    lemma_counter_form(name, count as nat);
    lemma_decimal_is_decimal_of(count as nat);
    assert(!next.contains_key(numbered));
    assert(register_steps(next, numbered, m.dom().len()) == (next.insert(numbered, 1u32), numbered));
    assert(register(m, name).1 == numbered);
    assert(numbered.take(name.len() as int) =~= name);
}

/// The word list has one word per line of the text, and word `i` is line `i`
/// with its first character upper-cased and the rest as it is.
pub proof fn lemma_word_list_words(text: Seq<char>)
    requires
        no_empty_line(text),
    ensures
        word_list(text).len() == lines(text).len(),
        forall|i: int|
            0 <= i < lines(text).len() ==> {
                let w = #[trigger] word_list(text)[i];
                let l = lines(text)[i];
                &&& w.len() == l.len()
                &&& w[0] == uppercase_first(l[0])
                &&& w.skip(1) == l.skip(1)
            },
{
    assert forall|i: int| 0 <= i < lines(text).len() implies {
        let w = #[trigger] word_list(text)[i];
        let l = lines(text)[i];
        &&& w.len() == l.len()
        &&& w[0] == uppercase_first(l[0])
        &&& w.skip(1) == l.skip(1)
    } by {
        let l = lines(text)[i];
        assert(l.len() > 0);
        assert(word_list(text)[i] == capitalized(l));
        assert(capitalized(l).skip(1) =~= l.skip(1));
    }
}

} // verus!
