//! The code lists that come with the PLATEAU data, by which a code such as 454
//! becomes 「業務施設」.
use crate::text;
use crate::text::{same_text, tail_after_last};
use vstd::prelude::*;

verus! {

/// An address that stands for an archive. It does not exist.
///
/// A code list is named relative to the file that uses it
/// (`../../codelists/Building_usage.xml`), so that file needs an address.
pub const CODELIST_BASE: &'static str = "https://plateau.invalid/zip/";

// ---------------------------------------------------------------------------
// Tables of texts
// ---------------------------------------------------------------------------

/// The table that maps each key to its value; where a key comes twice, to the
/// later one.
pub open spec fn table_of<V>(keys: Seq<Seq<char>>, values: Seq<V>) -> Map<Seq<char>, V>
    decreases keys.len(),
{
    if keys.len() == 0 {
        Map::empty()
    } else {
        table_of(keys.drop_last(), values).insert(keys.last(), values[keys.len() - 1])
    }
}

/// What a table has for a key.
pub open spec fn entry<V>(table: Map<Seq<char>, V>, key: Seq<char>) -> Option<V> {
    if table.contains_key(key) {
        Some(table[key])
    } else {
        None
    }
}

proof fn lemma_table_of<V>(keys: Seq<Seq<char>>, values: Seq<V>, key: Seq<char>)
    ensures
        !keys.contains(key) ==> !table_of(keys, values).contains_key(key),
        forall|i: int|
            0 <= i < keys.len() && keys[i] == key && (forall|j: int|
                i < j < keys.len() ==> keys[j] != key) ==> entry(table_of(keys, values), key)
                == Some(#[trigger] values[i]),
    decreases keys.len(),
{
    if keys.len() > 0 {
        let head = keys.drop_last();
        lemma_table_of(head, values, key);
        if !keys.contains(key) {
            assert(keys[keys.len() - 1] != key);
            assert(!head.contains(key)) by {
                if head.contains(key) {
                    let i = choose|i: int| 0 <= i < head.len() && head[i] == key;
                    assert(keys[i] == key);
                }
            }
        }
        assert forall|i: int|
            0 <= i < keys.len() && keys[i] == key && (forall|j: int|
                i < j < keys.len() ==> keys[j] != key) implies entry(
            table_of(keys, values),
            key,
        ) == Some(#[trigger] values[i]) by {
            if i < keys.len() - 1 {
                assert(keys[keys.len() - 1] != key);
                assert(head[i] == key);
                assert forall|j: int| i < j < head.len() implies head[j] != key by {
                    assert(keys[j] != key);
                }
            }
        }
    }
}

proof fn lemma_table_push<V>(keys: Seq<Seq<char>>, values: Seq<V>, key: Seq<char>, value: V)
    requires
        keys.len() == values.len(),
    ensures
        table_of(keys.push(key), values.push(value)) == table_of(keys, values).insert(key, value),
{
    assert(keys.push(key).drop_last() == keys);
    lemma_table_same(keys, values, values.push(value));
}

proof fn lemma_table_same<V>(keys: Seq<Seq<char>>, a: Seq<V>, b: Seq<V>)
    requires
        keys.len() <= a.len(),
        keys.len() <= b.len(),
        forall|i: int| 0 <= i < keys.len() ==> a[i] == b[i],
    ensures
        table_of(keys, a) == table_of(keys, b),
    decreases keys.len(),
{
    if keys.len() > 0 {
        lemma_table_same(keys.drop_last(), a, b);
    }
}

proof fn lemma_table_finite<V>(keys: Seq<Seq<char>>, values: Seq<V>)
    ensures
        table_of(keys, values).dom().finite(),
        forall|k: Seq<char>| #[trigger] table_of(keys, values).contains_key(k) <==> keys.contains(k),
    decreases keys.len(),
{
    if keys.len() > 0 {
        let head = keys.drop_last();
        lemma_table_finite(head, values);
        assert forall|k: Seq<char>| #[trigger]
            table_of(keys, values).contains_key(k) <==> keys.contains(k) by {
            if table_of(keys, values).contains_key(k) && k != keys.last() {
                assert(head.contains(k));
                let i = choose|i: int| 0 <= i < head.len() && head[i] == k;
                assert(keys[i] == k);
            }
            if k == keys.last() {
                assert(keys[keys.len() - 1] == k);
            }
            if keys.contains(k) && k != keys.last() {
                let i = choose|i: int| 0 <= i < keys.len() && keys[i] == k;
                assert(head[i] == k);
            }
        }
    }
}

/// The place of the last key that is `key`.
fn find_key(keys: &Vec<String>, key: &str) -> (place: Option<usize>)
    ensures
        match place {
            Some(i) => i < keys@.len() && keys@[i as int]@ == key@ && forall|j: int|
                i < j < keys@.len() ==> (#[trigger] keys@[j])@ != key@,
            None => forall|j: int| 0 <= j < keys@.len() ==> (#[trigger] keys@[j])@ != key@,
        },
{
    let mut i: usize = keys.len();
    while i > 0
        invariant
            i <= keys@.len(),
            forall|j: int| i <= j < keys@.len() ==> (#[trigger] keys@[j])@ != key@,
        decreases i,
    {
        i = i - 1;
        if same_text(keys[i].as_str(), key) {
            return Some(i);
        }
    }
    None
}

proof fn lemma_found<V>(keys: Seq<String>, values: Seq<V>, key: Seq<char>, place: Option<usize>)
    requires
        keys.len() == values.len(),
        match place {
            Some(i) => i < keys.len() && keys[i as int]@ == key && forall|j: int|
                i < j < keys.len() ==> (#[trigger] keys[j])@ != key,
            None => forall|j: int| 0 <= j < keys.len() ==> (#[trigger] keys[j])@ != key,
        },
    ensures
        match place {
            Some(i) => entry(table_of(text::texts(keys), values), key) == Some(values[i as int]),
            None => entry(table_of(text::texts(keys), values), key) is None,
        },
{
    let names = text::texts(keys);
    lemma_table_of(names, values, key);
    match place {
        Some(i) => {
            assert(names[i as int] == key);
            assert forall|j: int| i < j < names.len() implies names[j] != key by {
                assert(keys[j]@ != key);
            }
            assert(values[i as int] == values[i as int]);
        },
        None => {
            if names.contains(key) {
                let j = choose|j: int| 0 <= j < names.len() && names[j] == key;
                assert(keys[j]@ == key);
            }
        },
    }
}

// ---------------------------------------------------------------------------
// Code lists
// ---------------------------------------------------------------------------

/// The name of the file that a path leads to; nothing for a directory.
pub open spec fn file_name_of(path: Seq<char>) -> Option<Seq<char>> {
    let name = text::after_last(path, '/');
    if name.len() == 0 {
        None
    } else {
        Some(name)
    }
}

fn file_name(path: &str) -> (name: Option<String>)
    ensures
        match name {
            Some(n) => file_name_of(path@) == Some(n@),
            None => file_name_of(path@) is None,
        },
{
    let name = tail_after_last(path, '/');
    if name.as_str().is_empty() {
        None
    } else {
        Some(name)
    }
}

/// The contents of the code lists of an archive, by file name.
pub struct Codelists {
    names: Vec<String>,
    contents: Vec<Vec<u8>>,
}

/// What the contents of a list hold.
pub open spec fn bytes_of(contents: Seq<Vec<u8>>) -> Seq<Seq<u8>> {
    Seq::new(contents.len(), |i: int| contents[i]@)
}

/// The code lists among entries of an archive: each is found by the name of
/// its file, and a later one of the same name takes the place of an earlier.
pub open spec fn lists_of(entries: Seq<(String, Vec<u8>)>) -> Map<Seq<char>, Seq<u8>>
    decreases entries.len(),
{
    if entries.len() == 0 {
        Map::empty()
    } else {
        let before = lists_of(entries.drop_last());
        match file_name_of(entries.last().0@) {
            Some(name) => before.insert(name, entries.last().1@),
            None => before,
        }
    }
}

/// Where an address cannot be made, and why.
#[derive(Debug, PartialEq)]
pub struct BadAddress {
    pub name: String,
    pub cause: String,
}

impl BadAddress {
    pub open spec fn spec_text(name: Seq<char>, cause: Seq<char>) -> Seq<char> {
        "URLを組み立てられません: "@ + name + ": "@ + cause
    }

    pub fn to_string(&self) -> (text: String)
        ensures
            text@ == BadAddress::spec_text(self.name@, self.cause@),
    {
        let mut text = "URLを組み立てられません: ".to_string();
        text.append(self.name.as_str());
        text.append(": ");
        text.append(self.cause.as_str());
        text
    }
}

/// What `Url::join` makes of a reference, read relative to an address that
/// `Url::parse` has read: the whole address and its path, or what the error of
/// either says.
pub uninterp spec fn joined_url(base: Seq<char>, reference: Seq<char>) -> Result<
    (Seq<char>, Seq<char>),
    Seq<char>,
>;

/// `url::Url::parse`, then `join`: the address that a reference leads to from
/// `base`, and its path, or the error by its text, a function of both texts.
#[verifier::external_body]
fn url_join(base: &str, reference: &str) -> (r: Result<(String, String), String>)
    ensures
        match r {
            Ok((url, path)) => joined_url(base@, reference@) == Ok::<
                (Seq<char>, Seq<char>),
                Seq<char>,
            >((url@, path@)),
            Err(e) => joined_url(base@, reference@) == Err::<(Seq<char>, Seq<char>), Seq<char>>(e@),
        },
{
    match url::Url::parse(base).and_then(|base| base.join(reference)) {
        Ok(url) => Ok((url.to_string(), url.path().to_string())),
        Err(e) => Err(e.to_string()),
    }
}

impl View for Codelists {
    type V = Map<Seq<char>, Seq<u8>>;

    closed spec fn view(&self) -> Map<Seq<char>, Seq<u8>> {
        table_of(text::texts(self.names@), bytes_of(self.contents@))
    }
}

impl Codelists {
    pub closed spec fn wf(self) -> bool {
        self.names@.len() == self.contents@.len()
    }

    /// The code lists among `entries`, each a path and its content.
    pub fn new(entries: Vec<(String, Vec<u8>)>) -> (lists: Codelists)
        ensures
            lists.wf(),
            lists@ == lists_of(entries@),
    {
        let mut names: Vec<String> = Vec::new();
        let mut contents: Vec<Vec<u8>> = Vec::new();
        let mut i: usize = 0;
        proof {
            assert(entries@.take(0) == Seq::<(String, Vec<u8>)>::empty());
            assert(text::texts(names@) == Seq::<Seq<char>>::empty());
        }
        while i < entries.len()
            invariant
                i <= entries@.len(),
                names@.len() == contents@.len(),
                table_of(text::texts(names@), bytes_of(contents@)) == lists_of(
                    entries@.take(i as int),
                ),
            decreases entries@.len() - i,
        {
            assert(entries@.take(i + 1).drop_last() == entries@.take(i as int));
            let ghost had = text::texts(names@);
            let ghost held = bytes_of(contents@);
            match file_name(entries[i].0.as_str()) {
                Some(name) => {
                    let ghost n = name@;
                    let content = copy_bytes(&entries[i].1);
                    let ghost c = content@;
                    names.push(name);
                    contents.push(content);
                    proof {
                        lemma_table_push(had, held, n, c);
                        assert(text::texts(names@) =~= had.push(n));
                        assert(bytes_of(contents@) =~= held.push(c));
                    }
                },
                None => {},
            }
            i = i + 1;
        }
        assert(entries@.take(i as int) == entries@);
        Codelists { names, contents }
    }

    /// How many code lists there are.
    pub fn len(&self) -> (n: usize)
        requires
            self.wf(),
        ensures
            n == self@.dom().len(),
    {
        let ghost values = bytes_of(self.contents@);
        let ghost keys = text::texts(self.names@);
        let mut n: usize = 0;
        let mut i: usize = 0;
        assert(keys.take(0) == Seq::<Seq<char>>::empty());
        while i < self.names.len()
            invariant
                i <= self.names@.len(),
                keys == text::texts(self.names@),
                n <= i,
                n == table_of(keys.take(i as int), values).dom().len(),
            decreases self.names@.len() - i,
        {
            let ghost head = keys.take(i as int);
            proof {
                assert(keys.take(i + 1).drop_last() == head);
                lemma_table_finite(head, values);
            }
            let mut seen: bool = false;
            let mut j: usize = 0;
            while j < i
                invariant
                    j <= i < self.names@.len(),
                    keys == text::texts(self.names@),
                    head == keys.take(i as int),
                    seen == head.take(j as int).contains(keys[i as int]),
                decreases i - j,
            {
                assert(head.take(j + 1) == head.take(j as int).push(keys[j as int]));
                if same_text(self.names[j].as_str(), self.names[i].as_str()) {
                    assert(head.take(j + 1)[j as int] == keys[i as int]);
                    seen = true;
                } else if seen {
                    proof {
                        let shorter = head.take(j as int);
                        let k = choose|k: int|
                            0 <= k < shorter.len() && shorter[k] == keys[i as int];
                        assert(head.take(j + 1)[k] == keys[i as int]);
                    }
                }
                proof {
                    let longer = head.take(j + 1);
                    if longer.contains(keys[i as int]) {
                        let k = choose|k: int|
                            0 <= k < longer.len() && longer[k] == keys[i as int];
                        if k < j {
                            assert(head.take(j as int)[k] == keys[i as int]);
                        }
                    }
                }
                j = j + 1;
            }
            assert(head.take(i as int) == head);
            if !seen {
                n = n + 1;
            }
            i = i + 1;
        }
        assert(keys.take(i as int) == keys);
        n
    }

    pub fn is_empty(&self) -> (b: bool)
        requires
            self.wf(),
        ensures
            b == (self@.dom().len() == 0),
    {
        proof {
            let keys = text::texts(self.names@);
            lemma_table_finite(keys, bytes_of(self.contents@));
            if self.names@.len() > 0 {
                assert(keys.contains(keys[0]));
                assert(self@.contains_key(keys[0]));
                if self@.dom().len() == 0 {
                    assert(self@.dom() =~= Set::empty());
                }
            }
        }
        self.names.len() == 0
    }

    /// The content of the code list in that file.
    pub fn content(&self, name: &str) -> (r: Option<&Vec<u8>>)
        requires
            self.wf(),
        ensures
            match r {
                Some(bytes) => entry(self@, name@) == Some(bytes@),
                None => entry(self@, name@) is None,
            },
    {
        let place = find_key(&self.names, name);
        proof {
            lemma_found(self.names@, bytes_of(self.contents@), name@, place);
        }
        match place {
            Some(i) => Some(&self.contents[i]),
            None => None,
        }
    }

    /// The address that stands for a file of the archive, such as
    /// `udx/bldg/x.gml`.
    pub fn source_uri(name: &str) -> (r: Result<String, BadAddress>)
        ensures
            match (r, joined_url(CODELIST_BASE@, name@)) {
                (Ok(url), Ok(joined)) => url@ == joined.0,
                (Err(e), Err(cause)) => e.name@ == name@ && e.cause@ == cause,
                _ => false,
            },
    {
        match url_join(CODELIST_BASE, name) {
            Ok((url, _)) => Ok(url),
            Err(cause) => Err(BadAddress { name: name.to_string(), cause }),
        }
    }
}

pub(crate) fn copy_bytes(bytes: &Vec<u8>) -> (copy: Vec<u8>)
    ensures
        copy@ == bytes@,
{
    let mut copy: Vec<u8> = Vec::new();
    let mut i: usize = 0;
    while i < bytes.len()
        invariant
            i <= bytes@.len(),
            copy@ == bytes@.take(i as int),
        decreases bytes@.len() - i,
    {
        copy.push(bytes[i]);
        i = i + 1;
        assert(bytes@.take(i as int) == bytes@.take(i - 1).push(bytes@[i - 1]));
    }
    assert(bytes@.take(i as int) == bytes@);
    copy
}

// ---------------------------------------------------------------------------
// Resolving
// ---------------------------------------------------------------------------

/// The definitions of a code list: codes, and what each stands for.
pub struct Dictionary {
    pub codes: Vec<String>,
    pub meanings: Vec<String>,
}

impl View for Dictionary {
    type V = Map<Seq<char>, Seq<char>>;

    open spec fn view(&self) -> Map<Seq<char>, Seq<char>> {
        table_of(text::texts(self.codes@), text::texts(self.meanings@))
    }
}

/// The code lists whose definitions have been read.
pub struct Dictionaries {
    names: Vec<String>,
    read: Vec<Dictionary>,
}

/// What dictionaries hold.
pub open spec fn dictionary_views(read: Seq<Dictionary>) -> Seq<Map<Seq<char>, Seq<char>>> {
    Seq::new(read.len(), |i: int| read[i]@)
}

impl View for Dictionaries {
    type V = Map<Seq<char>, Map<Seq<char>, Seq<char>>>;

    closed spec fn view(&self) -> Map<Seq<char>, Map<Seq<char>, Seq<char>>> {
        table_of(text::texts(self.names@), dictionary_views(self.read@))
    }
}

impl Dictionaries {
    pub closed spec fn wf(self) -> bool {
        &&& self.names@.len() == self.read@.len()
        &&& forall|i: int|
            0 <= i < self.read@.len() ==> (#[trigger] self.read@[i]).codes@.len()
                == self.read@[i].meanings@.len()
    }

    pub fn new() -> (d: Dictionaries)
        ensures
            d.wf(),
            d@ == Map::<Seq<char>, Map<Seq<char>, Seq<char>>>::empty(),
    {
        let d = Dictionaries { names: Vec::new(), read: Vec::new() };
        assert(text::texts(d.names@) == Seq::<Seq<char>>::empty());
        d
    }

    /// Keeps the definitions that were read from that file.
    pub fn learn(&mut self, name: String, definitions: Dictionary)
        requires
            old(self).wf(),
            definitions.codes@.len() == definitions.meanings@.len(),
        ensures
            final(self).wf(),
            final(self)@ == old(self)@.insert(name@, definitions@),
    {
        proof {
            lemma_table_push(
                text::texts(self.names@),
                dictionary_views(self.read@),
                name@,
                definitions@,
            );
            assert(text::texts(self.names@.push(name)) =~= text::texts(self.names@).push(name@));
            assert(dictionary_views(self.read@.push(definitions)) =~= dictionary_views(
                self.read@,
            ).push(definitions@));
        }
        self.names.push(name);
        self.read.push(definitions);
    }
}

/// What a code leads to.
#[derive(Debug, PartialEq)]
pub enum Lookup {
    /// What it stands for. Nothing where the archive has no such list or the
    /// list no such code: the code then stays as it is.
    Known(Option<String>),
    /// The code list in this file is to be read first.
    ToRead(String),
}

#[verifier::ext_equal]
pub enum LookupView {
    Known(Option<Seq<char>>),
    ToRead(Seq<char>),
}

impl View for Lookup {
    type V = LookupView;

    open spec fn view(&self) -> LookupView {
        match self {
            Lookup::Known(Some(s)) => LookupView::Known(Some(s@)),
            Lookup::Known(None) => LookupView::Known(None),
            Lookup::ToRead(name) => LookupView::ToRead(name@),
        }
    }
}

/// What a code leads to, where `address` is what the name of its list leads to.
pub open spec fn lookup_of(
    lists: Map<Seq<char>, Seq<u8>>,
    known: Map<Seq<char>, Map<Seq<char>, Seq<char>>>,
    path: Seq<char>,
    code: Seq<char>,
) -> LookupView {
    match file_name_of(path) {
        None => LookupView::Known(None),
        Some(name) => match entry(known, name) {
            Some(definitions) => LookupView::Known(entry(definitions, code)),
            None => if lists.contains_key(name) {
                LookupView::ToRead(name)
            } else {
                LookupView::Known(None)
            },
        },
    }
}

/// Looks up a code of the list that stands at `path`.
pub fn look_up_at(lists: &Codelists, known: &Dictionaries, path: &str, code: &str) -> (r: Lookup)
    requires
        lists.wf(),
        known.wf(),
    ensures
        r@ == lookup_of(lists@, known@, path@, code@),
{
    let name = match file_name(path) {
        Some(name) => name,
        None => {
            return Lookup::Known(None);
        },
    };
    let place = find_key(&known.names, name.as_str());
    proof {
        lemma_found(known.names@, dictionary_views(known.read@), name@, place);
    }
    match place {
        Some(i) => {
            let definitions = &known.read[i];
            let found = find_key(&definitions.codes, code);
            proof {
                lemma_found(
                    definitions.codes@,
                    text::texts(definitions.meanings@),
                    code@,
                    found,
                );
            }
            match found {
                Some(j) => Lookup::Known(Some(definitions.meanings[j].clone())),
                None => Lookup::Known(None),
            }
        },
        None => match lists.content(name.as_str()) {
            Some(_) => Lookup::ToRead(name),
            None => Lookup::Known(None),
        },
    }
}

/// The name of a code list that leads nowhere, and why.
#[derive(Debug, PartialEq)]
pub struct BadCodeSpace {
    pub code_space: String,
    pub cause: String,
}

impl BadCodeSpace {
    pub open spec fn spec_text(code_space: Seq<char>, cause: Seq<char>) -> Seq<char> {
        "codeSpaceを解決できません "@ + code_space + ": "@ + cause
    }

    pub fn to_string(&self) -> (text: String)
        ensures
            text@ == BadCodeSpace::spec_text(self.code_space@, self.cause@),
    {
        let mut text = "codeSpaceを解決できません ".to_string();
        text.append(self.code_space.as_str());
        text.append(": ");
        text.append(self.cause.as_str());
        text
    }
}

/// Looks up a code of the list that `code_space` names, seen from the file at
/// `base`.
pub fn look_up(
    lists: &Codelists,
    known: &Dictionaries,
    base: &str,
    code_space: &str,
    code: &str,
) -> (r: Result<Lookup, BadCodeSpace>)
    requires
        lists.wf(),
        known.wf(),
    ensures
        match (r, joined_url(base@, code_space@)) {
            (Ok(found), Ok(joined)) => found@ == lookup_of(lists@, known@, joined.1, code@),
            (Err(e), Err(cause)) => e.code_space@ == code_space@ && e.cause@ == cause,
            _ => false,
        },
{
    match url_join(base, code_space) {
        Ok((_, path)) => Ok(look_up_at(lists, known, path.as_str(), code)),
        Err(cause) => Err(BadCodeSpace { code_space: code_space.to_string(), cause }),
    }
}

/// A code list has to be read once at most: whoever was told to read it and
/// keeps its definitions learns what the code stands for.
pub proof fn law_reading_once_is_enough(
    lists: Map<Seq<char>, Seq<u8>>,
    known: Map<Seq<char>, Map<Seq<char>, Seq<char>>>,
    path: Seq<char>,
    code: Seq<char>,
    definitions: Map<Seq<char>, Seq<char>>,
)
    requires
        lookup_of(lists, known, path, code) is ToRead,
    ensures
        ({
            let name = lookup_of(lists, known, path, code)->ToRead_0;
            &&& lists.contains_key(name)
            &&& lookup_of(lists, known.insert(name, definitions), path, code)
                == LookupView::Known(entry(definitions, code))
        }),
{
}

/// What is known stays known: reading another list changes no answer.
pub proof fn law_answers_stay(
    lists: Map<Seq<char>, Seq<u8>>,
    known: Map<Seq<char>, Map<Seq<char>, Seq<char>>>,
    path: Seq<char>,
    code: Seq<char>,
    name: Seq<char>,
    definitions: Map<Seq<char>, Seq<char>>,
)
    requires
        lookup_of(lists, known, path, code) is Known,
        lists.contains_key(name),
        !known.contains_key(name),
    ensures
        lookup_of(lists, known.insert(name, definitions), path, code) == lookup_of(
            lists,
            known,
            path,
            code,
        ),
{
}

/// A key that was put in leads to the value that came with it last.
pub proof fn law_the_last_value_of_a_key_counts<V>(keys: Seq<Seq<char>>, values: Seq<V>, i: int)
    requires
        0 <= i < keys.len(),
        forall|j: int| #![trigger keys[j]] i < j < keys.len() ==> keys[j] != keys[i],
    ensures
        entry(table_of(keys, values), keys[i]) == Some(values[i]),
    decreases keys.len(),
{
    let last = keys.len() - 1;
    if i < last {
        let rest = keys.drop_last();
        assert(keys[last] != keys[i]);
        assert(rest[i] == keys[i]);
        assert forall|j: int| #![trigger rest[j]] i < j < rest.len() implies rest[j] != rest[i] by {
            assert(keys[j] == rest[j]);
        }
        law_the_last_value_of_a_key_counts(rest, values, i);
    }
}

/// A key that was not put in leads to nothing.
pub proof fn law_other_keys_lead_to_nothing<V>(
    keys: Seq<Seq<char>>,
    values: Seq<V>,
    key: Seq<char>,
)
    requires
        forall|j: int| #![trigger keys[j]] 0 <= j < keys.len() ==> keys[j] != key,
    ensures
        entry(table_of(keys, values), key) is None,
    decreases keys.len(),
{
    if keys.len() > 0 {
        let rest = keys.drop_last();
        assert(keys[keys.len() - 1] != key);
        assert forall|j: int| #![trigger rest[j]] 0 <= j < rest.len() implies rest[j] != key by {
            assert(keys[j] == rest[j]);
        }
        law_other_keys_lead_to_nothing(rest, values, key);
    }
}

/// A list is found by the name of its file: what follows the last slash of its
/// path.
pub proof fn law_files_go_by_their_last_part(before: Seq<char>, name: Seq<char>)
    requires
        !name.contains('/'),
    ensures
        name.len() > 0 ==> file_name_of(before + seq!['/'] + name) == Some(name),
        name.len() > 0 ==> file_name_of(name) == Some(name),
        file_name_of(before + seq!['/']) is None,
{
    text::law_the_last_mark_counts(before, '/', name);
    let none = Seq::<char>::empty();
    text::law_the_last_mark_counts(before, '/', none);
    assert(before + seq!['/'] + none =~= before + seq!['/']);
}

/// Every list of an archive is there under the name of its file, with its own
/// content unless a later one has that name.
pub proof fn law_lists_go_by_their_file(entries: Seq<(String, Vec<u8>)>, i: int)
    requires
        0 <= i < entries.len(),
        file_name_of(entries[i].0@) is Some,
        forall|j: int|
            #![trigger entries[j]]
            i < j < entries.len() ==> file_name_of(entries[j].0@) != file_name_of(entries[i].0@),
    ensures
        lists_of(entries).contains_key(file_name_of(entries[i].0@)->0),
        lists_of(entries)[file_name_of(entries[i].0@)->0] == entries[i].1@,
    decreases entries.len(),
{
    let last = entries.len() - 1;
    assert(entries[last] == entries.last());
    if i < last {
        let rest = entries.drop_last();
        assert(forall|j: int| #![trigger rest[j]] 0 <= j < rest.len() ==> rest[j] == entries[j]);
        law_lists_go_by_their_file(rest, i);
        assert(file_name_of(entries[last].0@) != file_name_of(entries[i].0@));
    }
}

/// A code means what its list says of it: once the list has been read it is
/// looked up there, a list that is there has to be read first, and nothing is
/// known of a code whose list is not there.
pub proof fn law_codes_are_looked_up_in_their_list(
    lists: Map<Seq<char>, Seq<u8>>,
    known: Map<Seq<char>, Map<Seq<char>, Seq<char>>>,
    before: Seq<char>,
    name: Seq<char>,
    code: Seq<char>,
)
    requires
        name.len() > 0,
        !name.contains('/'),
    ensures
        ({
            let answer = lookup_of(lists, known, before + seq!['/'] + name, code);
            &&& known.contains_key(name) && known[name].contains_key(code) ==> answer
                == LookupView::Known(Some(known[name][code]))
            &&& known.contains_key(name) && !known[name].contains_key(code) ==> answer
                == LookupView::Known(None)
            &&& !known.contains_key(name) && lists.contains_key(name) ==> answer
                == LookupView::ToRead(name)
            &&& !known.contains_key(name) && !lists.contains_key(name) ==> answer
                == LookupView::Known(None)
        }),
{
    law_files_go_by_their_last_part(before, name);
}

} // verus!
