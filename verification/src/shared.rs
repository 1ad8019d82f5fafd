use vstd::prelude::*;

verus! {

/// A body transform that a client may declare acceptable.
#[derive(Debug, Clone, Copy, PartialEq, Eq, Structural)]
pub enum HttpEncodingScheme {
    Gzip,
    Identity,
}

/// The lower-case form of a string, as `str::to_lowercase` computes it.
pub uninterp spec fn lowercase(s: Seq<char>) -> Seq<char>;

/// `str::to_lowercase`: the result is the Unicode lower-case form of `s`,
/// which depends on `s` alone. Nothing more is claimed of it.
#[verifier::external_body]
pub(crate) fn to_lowercase(s: &str) -> (r: String)
    ensures
        r@ == lowercase(s@),
{
    s.to_lowercase()
}

/// The text of an optional string.
pub open spec fn text_of_option(s: Option<String>) -> Option<Seq<char>> {
    match s {
        Some(s) => Some(s@),
        None => None,
    }
}

/// The text of an optional reference to a string.
pub open spec fn text_of_option_ref(s: Option<&String>) -> Option<Seq<char>> {
    match s {
        Some(s) => Some(s@),
        None => None,
    }
}

/// One entry of a mapping: a name and its value.
#[derive(Debug, Clone)]
pub struct TextEntry {
    pub name: String,
    pub value: String,
}

impl View for TextEntry {
    type V = (Seq<char>, Seq<char>);

    open spec fn view(&self) -> (Seq<char>, Seq<char>) {
        (self.name@, self.value@)
    }
}

/// No name occurs twice in `entries`.
pub open spec fn distinct_names(entries: Seq<(Seq<char>, Seq<char>)>) -> bool {
    forall|i: int, j: int| 0 <= i < j < entries.len() ==> entries[i].0 != entries[j].0
}

/// The position of `name` in `entries`, or `entries.len()` if it is absent.
pub open spec fn position_of(entries: Seq<(Seq<char>, Seq<char>)>, name: Seq<char>) -> int
    decreases entries.len(),
{
    if entries.len() == 0 {
        0
    } else if entries[0].0 == name {
        0
    } else {
        1 + position_of(entries.drop_first(), name)
    }
}

/// The value stored under `name`, if any.
pub open spec fn lookup(entries: Seq<(Seq<char>, Seq<char>)>, name: Seq<char>) -> Option<
    Seq<char>,
> {
    let i = position_of(entries, name);
    if i < entries.len() {
        Some(entries[i].1)
    } else {
        None
    }
}

/// `entries` with `name` bound to `value`: an existing entry keeps its place
/// and takes the new value, a new name goes to the end.
pub open spec fn with_entry(
    entries: Seq<(Seq<char>, Seq<char>)>,
    name: Seq<char>,
    value: Seq<char>,
) -> Seq<(Seq<char>, Seq<char>)> {
    let i = position_of(entries, name);
    if i < entries.len() {
        entries.update(i, (name, value))
    } else {
        entries.push((name, value))
    }
}

/// `entries` without the entry for `name`.
pub open spec fn without_entry(entries: Seq<(Seq<char>, Seq<char>)>, name: Seq<char>) -> Seq<
    (Seq<char>, Seq<char>),
> {
    let i = position_of(entries, name);
    if i < entries.len() {
        entries.remove(i)
    } else {
        entries
    }
}

/// The mapping from names to values that `entries` stands for.
pub open spec fn as_map(entries: Seq<(Seq<char>, Seq<char>)>) -> Map<Seq<char>, Seq<char>> {
    Map::new(
        |name: Seq<char>| position_of(entries, name) < entries.len(),
        |name: Seq<char>| entries[position_of(entries, name)].1,
    )
}

/// `position_of` finds the first entry named `name`.
pub proof fn lemma_position_of(entries: Seq<(Seq<char>, Seq<char>)>, name: Seq<char>)
    ensures
        0 <= position_of(entries, name) <= entries.len(),
        forall|k: int| 0 <= k < position_of(entries, name) ==> entries[k].0 != name,
        position_of(entries, name) < entries.len() ==> entries[position_of(entries, name)].0
            == name,
    decreases entries.len(),
{
    if entries.len() > 0 && entries[0].0 != name {
        let rest = entries.drop_first();
        lemma_position_of(rest, name);
        assert forall|k: int| 0 <= k < position_of(entries, name) implies entries[k].0
            != name by {
            if k > 0 {
                assert(entries[k] == rest[k - 1]);
            }
        }
    }
}

/// An index that holds `name`, with no earlier one, is its position.
pub proof fn lemma_position_is(entries: Seq<(Seq<char>, Seq<char>)>, name: Seq<char>, i: int)
    requires
        0 <= i <= entries.len(),
        forall|k: int| 0 <= k < i ==> entries[k].0 != name,
        i < entries.len() ==> entries[i].0 == name,
    ensures
        position_of(entries, name) == i,
{
    lemma_position_of(entries, name);
}

/// Binding a name keeps the names distinct and shows in the mapping as an
/// insertion.
pub proof fn lemma_with_entry(
    entries: Seq<(Seq<char>, Seq<char>)>,
    name: Seq<char>,
    value: Seq<char>,
)
    requires
        distinct_names(entries),
    ensures
        distinct_names(with_entry(entries, name, value)),
        as_map(with_entry(entries, name, value)) == as_map(entries).insert(name, value),
{
    let after = with_entry(entries, name, value);
    let i = position_of(entries, name);
    lemma_position_of(entries, name);
    assert(distinct_names(after));
    lemma_position_is(after, name, i);
    assert forall|n: Seq<char>| n != name implies (position_of(after, n) < after.len()) == (
    position_of(entries, n) < entries.len()) && (position_of(entries, n) < entries.len()
        ==> after[position_of(after, n)].1 == entries[position_of(entries, n)].1) by {
        lemma_position_of(entries, n);
        let p = position_of(entries, n);
        if p < entries.len() {
            lemma_position_is(after, n, p);
        } else {
            lemma_position_is(after, n, after.len() as int);
        }
    }
    assert(as_map(after) =~= as_map(entries).insert(name, value));
}

/// After a name was bound, it holds the new value and every other name
/// holds what it held.
pub proof fn lemma_lookup_with_entry(
    entries: Seq<(Seq<char>, Seq<char>)>,
    name: Seq<char>,
    value: Seq<char>,
    other: Seq<char>,
)
    ensures
        lookup(with_entry(entries, name, value), other) == (if other == name {
            Some(value)
        } else {
            lookup(entries, other)
        }),
{
    let after = with_entry(entries, name, value);
    let i = position_of(entries, name);
    lemma_position_of(entries, name);
    lemma_position_of(entries, other);
    let p = position_of(entries, other);
    if other == name {
        lemma_position_is(after, name, i);
    } else if p < entries.len() {
        lemma_position_is(after, other, p);
    } else {
        lemma_position_is(after, other, after.len() as int);
    }
}

/// Removing a name keeps the names distinct and shows in the mapping as a
/// removal.
pub proof fn lemma_without_entry(entries: Seq<(Seq<char>, Seq<char>)>, name: Seq<char>)
    requires
        distinct_names(entries),
    ensures
        distinct_names(without_entry(entries, name)),
        as_map(without_entry(entries, name)) == as_map(entries).remove(name),
{
    let after = without_entry(entries, name);
    let i = position_of(entries, name);
    lemma_position_of(entries, name);
    assert(distinct_names(after));
    assert forall|n: Seq<char>|
        #![auto]
        (position_of(after, n) < after.len()) == (n != name && position_of(entries, n)
            < entries.len()) && (n != name && position_of(entries, n) < entries.len()
            ==> after[position_of(after, n)].1 == entries[position_of(entries, n)].1) by {
        lemma_position_of(entries, n);
        let p = position_of(entries, n);
        if i < entries.len() {
            if n == name {
                lemma_position_is(after, n, after.len() as int);
            } else if p < i {
                lemma_position_is(after, n, p);
            } else {
                lemma_position_is(after, n, p - 1);
            }
        }
    }
    assert(as_map(after) =~= as_map(entries).remove(name));
}

/// A mapping from names to values, both text: each name occurs once, and
/// the entries keep the order in which their names were first inserted.
#[derive(Debug)]
pub struct TextMap {
    entries: Vec<TextEntry>,
}

impl View for TextMap {
    type V = Seq<(Seq<char>, Seq<char>)>;

    closed spec fn view(&self) -> Seq<(Seq<char>, Seq<char>)> {
        self.entries@.map_values(|e: TextEntry| e@)
    }
}

impl TextMap {
    #[verifier::type_invariant]
    spec fn inv(self) -> bool {
        distinct_names(self@)
    }

    /// The mapping from names to values.
    pub open spec fn map(&self) -> Map<Seq<char>, Seq<char>> {
        as_map(self@)
    }

    /// An empty mapping.
    pub fn new() -> (r: Self)
        ensures
            r@ == Seq::<(Seq<char>, Seq<char>)>::empty(),
    {
        let r = TextMap { entries: Vec::new() };
        assert(r@ =~= Seq::<(Seq<char>, Seq<char>)>::empty());
        r
    }

    /// The number of entries; no two of them share a name.
    pub fn len(&self) -> (n: usize)
        ensures
            n == self@.len(),
            distinct_names(self@),
    {
        proof {
            use_type_invariant(self);
        }
        self.entries.len()
    }

    /// The entry at position `i`, in insertion order, if there is one.
    pub fn entry(&self, i: usize) -> (e: Option<&TextEntry>)
        ensures
            e.is_some() == (i < self@.len()),
            e matches Some(entry) ==> entry@ == self@[i as int],
    {
        if i < self.entries.len() {
            Some(&self.entries[i])
        } else {
            None
        }
    }

    fn position(&self, name: &String) -> (i: usize)
        ensures
            i == position_of(self@, name@),
            i <= self@.len(),
    {
        let mut i: usize = 0;
        while i < self.entries.len() && self.entries[i].name != *name
            invariant
                i <= self.entries.len(),
                forall|k: int| 0 <= k < i ==> self@[k].0 != name@,
            decreases self.entries.len() - i,
        {
            i += 1;
        }
        proof {
            lemma_position_is(self@, name@, i as int);
        }
        i
    }

    /// Binds `name` to `value`; a value already bound to it is replaced.
    pub fn insert(&mut self, name: String, value: String)
        ensures
            final(self)@ == with_entry(old(self)@, name@, value@),
    {
        proof {
            use_type_invariant(&*self);
            lemma_with_entry(self@, name@, value@);
        }
        let i = self.position(&name);
        let entry = TextEntry { name, value };
        let mut entries: Vec<TextEntry> = Vec::new();
        std::mem::swap(&mut entries, &mut self.entries);
        if i < entries.len() {
            entries.set(i, entry);
        } else {
            entries.push(entry);
        }
        assert(entries@.map_values(|e: TextEntry| e@) =~= with_entry(
            old(self)@,
            name@,
            value@,
        ));
        self.entries = entries;
    }

    /// The value bound to `name`.
    pub fn get(&self, name: &str) -> (r: Option<&String>)
        ensures
            text_of_option_ref(r) == lookup(self@, name@),
    {
        let key = name.to_owned();
        let i = self.position(&key);
        if i < self.entries.len() {
            Some(&self.entries[i].value)
        } else {
            None
        }
    }

    /// Removes the entry for `name` and returns its value.
    pub fn remove(&mut self, name: &str) -> (r: Option<String>)
        ensures
            final(self)@ == without_entry(old(self)@, name@),
            text_of_option(r) == lookup(old(self)@, name@),
    {
        proof {
            use_type_invariant(&*self);
            lemma_without_entry(self@, name@);
        }
        let key = name.to_owned();
        let i = self.position(&key);
        if i < self.entries.len() {
            let mut entries: Vec<TextEntry> = Vec::new();
            std::mem::swap(&mut entries, &mut self.entries);
            let entry = entries.remove(i);
            assert(entries@.map_values(|e: TextEntry| e@) =~= without_entry(
                old(self)@,
                name@,
            ));
            self.entries = entries;
            Some(entry.value)
        } else {
            None
        }
    }
}

/// A header mapping: names are normalised to lower case on insertion and on
/// lookup, each name occurs once, and the entries keep the order in which
/// their names were first inserted.
#[derive(Debug)]
pub struct HttpHeaders {
    entries: TextMap,
}

impl View for HttpHeaders {
    type V = Seq<(Seq<char>, Seq<char>)>;

    closed spec fn view(&self) -> Seq<(Seq<char>, Seq<char>)> {
        self.entries@
    }
}

impl HttpHeaders {
    /// The mapping from names to values.
    pub open spec fn map(&self) -> Map<Seq<char>, Seq<char>> {
        as_map(self@)
    }

    /// An empty mapping.
    pub fn new() -> (r: Self)
        ensures
            r@ == Seq::<(Seq<char>, Seq<char>)>::empty(),
    {
        HttpHeaders { entries: TextMap::new() }
    }

    /// The number of entries; no two of them share a name.
    pub fn len(&self) -> (n: usize)
        ensures
            n == self@.len(),
            distinct_names(self@),
    {
        self.entries.len()
    }

    /// The entry at position `i`, in insertion order, if there is one.
    pub fn entry(&self, i: usize) -> (e: Option<&TextEntry>)
        ensures
            e.is_some() == (i < self@.len()),
            e matches Some(entry) ==> entry@ == self@[i as int],
    {
        self.entries.entry(i)
    }

    /// Binds `name`, taken as it is, to `value`.
    pub fn insert_exact(&mut self, name: String, value: String)
        ensures
            final(self)@ == with_entry(old(self)@, name@, value@),
    {
        self.entries.insert(name, value);
    }

    /// The value bound to `name`, taken as it is.
    pub fn get_exact(&self, name: &str) -> (r: Option<&String>)
        ensures
            text_of_option_ref(r) == lookup(self@, name@),
    {
        self.entries.get(name)
    }

    /// Removes the entry for `name`, taken as it is, and returns its value.
    pub fn remove_exact(&mut self, name: &str) -> (r: Option<String>)
        ensures
            final(self)@ == without_entry(old(self)@, name@),
            text_of_option(r) == lookup(old(self)@, name@),
    {
        self.entries.remove(name)
    }

    /// Binds the lower-case form of `key` to `value`; a value already bound
    /// to it is replaced.
    pub fn insert(&mut self, key: &str, value: &str)
        ensures
            final(self)@ == with_entry(old(self)@, lowercase(key@), value@),
    {
        let key = to_lowercase(key);
        self.entries.insert(key, value.to_owned());
    }

    /// The value bound to the lower-case form of `key`.
    pub fn get(&self, key: &str) -> (r: Option<&String>)
        ensures
            text_of_option_ref(r) == lookup(self@, lowercase(key@)),
    {
        let key = to_lowercase(key);
        self.entries.get(key.as_str())
    }

    /// Removes the entry for the lower-case form of `key` and returns its
    /// value.
    pub fn remove(&mut self, key: &str) -> (r: Option<String>)
        ensures
            final(self)@ == without_entry(old(self)@, lowercase(key@)),
            text_of_option(r) == lookup(old(self)@, lowercase(key@)),
    {
        let key = to_lowercase(key);
        self.entries.remove(key.as_str())
    }
}

impl Default for HttpHeaders {
    fn default() -> (r: Self)
        ensures
            r@ == Seq::<(Seq<char>, Seq<char>)>::empty(),
    {
        HttpHeaders::new()
    }
}

} // verus!
