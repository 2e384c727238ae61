//! The filter of the directory walker: which entries of a walk are shown,
//! by their type and by regular expressions on their file names.
use vstd::prelude::*;

use crate::text::texts;

verus! {

#[verifier::external_type_specification]
#[verifier::external_body]
pub struct ExRegex(regex::Regex);

#[verifier::external_type_specification]
#[verifier::external_body]
pub struct ExRegexError(regex::Error);

/// Whether the `regex` crate accepts `pattern` as a regular expression.
pub uninterp spec fn regex_valid(pattern: Seq<char>) -> bool;

/// Whether the regular expression `pattern` matches somewhere in `text`.
pub uninterp spec fn regex_match(pattern: Seq<char>, text: Seq<char>) -> bool;

/// Relies on `regex::Regex::new`: it succeeds exactly on the patterns that
/// the crate accepts, which depends on the pattern alone.
#[verifier::external_body]
fn compile(pattern: &str) -> (r: Result<regex::Regex, regex::Error>)
    ensures
        r is Ok <==> regex_valid(pattern@),
{
    regex::Regex::new(pattern)
}

/// Relies on `regex::Regex::is_match`: whether the expression that `p` was
/// compiled from matches anywhere in `text` (an unanchored search).
#[verifier::external_body]
fn search(p: &NamePattern, text: &str) -> (r: bool)
    ensures
        r == regex_match(p@, text@),
{
    p.compiled.is_match(text)
}

/// The kinds of entry that a walk can be restricted to.
#[derive(Clone, Copy, Debug, PartialEq, Eq, Structural)]
pub enum EntryType {
    Dir,
    File,
    Link,
}

/// The letter that names an entry type on the command line.
pub open spec fn letter_of(t: EntryType) -> char {
    match t {
        EntryType::Dir => 'd',
        EntryType::File => 'f',
        EntryType::Link => 'l',
    }
}

impl EntryType {
    /// Every entry type, in the order in which they are offered.
    pub fn variants() -> (r: Vec<EntryType>)
        ensures
            r@ == seq![EntryType::Dir, EntryType::File, EntryType::Link],
    {
        vec![EntryType::Dir, EntryType::File, EntryType::Link]
    }

    /// The letter that names this type on the command line.
    pub fn letter(&self) -> (r: char)
        ensures
            r == letter_of(*self),
    {
        match self {
            EntryType::Dir => 'd',
            EntryType::File => 'f',
            EntryType::Link => 'l',
        }
    }

    /// The type that `c` names, if any.
    pub fn from_letter(c: char) -> (r: Option<EntryType>)
        ensures
            r matches Some(t) ==> letter_of(t) == c,
            r is None <==> (c != 'd' && c != 'f' && c != 'l'),
    {
        if c == 'd' {
            Some(EntryType::Dir)
        } else if c == 'f' {
            Some(EntryType::File)
        } else if c == 'l' {
            Some(EntryType::Link)
        } else {
            None
        }
    }
}

/// One entry met by a walk: its path, its file name, and what its file type
/// reports.
pub struct Entry {
    pub path: String,
    pub name: String,
    pub is_dir: bool,
    pub is_file: bool,
    pub is_symlink: bool,
}

/// Whether entry `e` is of type `t`.
pub open spec fn has_type(e: Entry, t: EntryType) -> bool {
    match t {
        EntryType::Dir => e.is_dir,
        EntryType::File => e.is_file,
        EntryType::Link => e.is_symlink,
    }
}

/// A compiled regular expression, with the text it was compiled from.
/// Only [`NamePattern::new`] builds one, so `compiled` is always what
/// `source` compiles to.
pub struct NamePattern {
    source: String,
    compiled: regex::Regex,
}

impl View for NamePattern {
    type V = Seq<char>;

    closed spec fn view(&self) -> Seq<char> {
        self.source@
    }
}

/// What keeps a filter from being built.
#[derive(Debug)]
pub enum FindError {
    /// This name pattern is no regular expression.
    InvalidPattern(String),
}

impl NamePattern {
    /// Compiles `source`; fails exactly when it is no regular expression.
    pub fn new(source: &str) -> (r: Result<NamePattern, FindError>)
        ensures
            r is Ok <==> regex_valid(source@),
            r matches Ok(p) ==> p@ == source@,
            r matches Err(FindError::InvalidPattern(s)) ==> s@ == source@,
    {
        match compile(source) {
            Ok(compiled) => Ok(NamePattern { source: source.to_owned(), compiled }),
            Err(_) => Err(FindError::InvalidPattern(source.to_owned())),
        }
    }

    /// Whether this pattern matches somewhere in `text`.
    pub fn is_match(&self, text: &str) -> (r: bool)
        ensures
            r == regex_match(self@, text@),
    {
        search(self, text)
    }
}

/// The views of a sequence of patterns.
pub open spec fn sources(ps: Seq<NamePattern>) -> Seq<Seq<char>> {
    ps.map_values(|p: NamePattern| p@)
}

/// An entry passes the type filter when no type is asked for, or when it
/// is of one of the types asked for.
pub open spec fn type_ok(types: Seq<EntryType>, e: Entry) -> bool {
    types.len() == 0 || exists|i: int| 0 <= i < types.len() && has_type(e, #[trigger] types[i])
}

/// An entry passes the name filter when no pattern is given, or when one of
/// the patterns matches somewhere in its file name.
pub open spec fn name_ok(patterns: Seq<Seq<char>>, name: Seq<char>) -> bool {
    patterns.len() == 0 || exists|i: int|
        0 <= i < patterns.len() && regex_match(#[trigger] patterns[i], name)
}

/// The type set and the name patterns that decide which entries are shown.
pub struct Filter {
    types: Vec<EntryType>,
    patterns: Vec<NamePattern>,
}

impl Filter {
    /// The entry types asked for.
    pub closed spec fn type_set(&self) -> Seq<EntryType> {
        self.types@
    }

    /// The texts of the name patterns, in the order given.
    pub closed spec fn pattern_texts(&self) -> Seq<Seq<char>> {
        sources(self.patterns@)
    }

    /// Whether this filter shows entry `e`.
    pub open spec fn shows(&self, e: Entry) -> bool {
        type_ok(self.type_set(), e) && name_ok(self.pattern_texts(), e.name@)
    }

    /// Builds the filter from the types and the name patterns asked for.
    /// Fails on the first pattern that is no regular expression.
    pub fn new(types: Vec<EntryType>, names: &Vec<String>) -> (r: Result<Filter, FindError>)
        ensures
            r is Ok <==> forall|i: int| 0 <= i < names.len() ==> regex_valid(#[trigger] names[i]@),
            r matches Ok(f) ==> f.type_set() == types@ && f.pattern_texts() == texts(names@),
            r matches Err(FindError::InvalidPattern(s)) ==> exists|i: int|
                0 <= i < names.len() && s@ == (#[trigger] names[i])@ && !regex_valid(s@) && forall|j: int|
                    0 <= j < i ==> regex_valid(#[trigger] names[j]@),
    {
        let mut patterns: Vec<NamePattern> = Vec::new();
        let mut i: usize = 0;
        while i < names.len()
            invariant
                i <= names.len(),
                sources(patterns@) == texts(names@).take(i as int),
                forall|j: int| 0 <= j < i ==> regex_valid(#[trigger] names[j]@),
            decreases names.len() - i,
        {
            match NamePattern::new(names[i].as_str()) {
                Ok(p) => {
                    let ghost before = patterns@;
                    patterns.push(p);
                    assert(sources(patterns@) =~= sources(before).push(p@));
                    assert(sources(patterns@) =~= texts(names@).take(i + 1));
                },
                Err(e) => {
                    return Err(e);
                },
            }
            i += 1;
        }
        assert(texts(names@).take(names@.len() as int) =~= texts(names@));
        Ok(Filter { types, patterns })
    }

    /// Whether entry `e` is of one of the types asked for, or no type was.
    pub fn type_matches(&self, e: &Entry) -> (r: bool)
        ensures
            r == type_ok(self.type_set(), *e),
    {
        if self.types.len() == 0 {
            return true;
        }
        let mut i: usize = 0;
        while i < self.types.len()
            invariant
                i <= self.types.len(),
                forall|j: int| 0 <= j < i ==> !has_type(*e, #[trigger] self.types@[j]),
            decreases self.types.len() - i,
        {
            let hit = match self.types[i] {
                EntryType::Dir => e.is_dir,
                EntryType::File => e.is_file,
                EntryType::Link => e.is_symlink,
            };
            if hit {
                return true;
            }
            i += 1;
        }
        false
    }

    /// Whether one of the name patterns matches `name`, or none was given.
    pub fn name_matches(&self, name: &str) -> (r: bool)
        ensures
            r == name_ok(self.pattern_texts(), name@),
    {
        if self.patterns.len() == 0 {
            return true;
        }
        let mut i: usize = 0;
        while i < self.patterns.len()
            invariant
                i <= self.patterns.len(),
                forall|j: int| 0 <= j < i ==> !regex_match(#[trigger] self.pattern_texts()[j], name@),
            decreases self.patterns.len() - i,
        {
            if self.patterns[i].is_match(name) {
                assert(self.pattern_texts()[i as int] == self.patterns@[i as int]@);
                return true;
            }
            i += 1;
        }
        false
    }

    /// Whether entry `e` passes both the type and the name filter.
    pub fn accepts(&self, e: &Entry) -> (r: bool)
        ensures
            r == self.shows(*e),
    {
        self.type_matches(e) && self.name_matches(e.name.as_str())
    }

    /// The paths of the entries of `entries` that this filter shows, in
    /// their order.
    pub fn select(&self, entries: &Vec<Entry>) -> (r: Vec<String>)
        ensures
            texts(r@) == selected(*self, entries@),
    {
        let mut r: Vec<String> = Vec::new();
        let mut i: usize = 0;
        while i < entries.len()
            invariant
                i <= entries.len(),
                texts(r@) == selected(*self, entries@.take(i as int)),
            decreases entries.len() - i,
        {
            let e = &entries[i];
            proof {
                assert(entries@.take(i + 1).drop_last() =~= entries@.take(i as int));
            }
            if self.accepts(e) {
                let ghost before = r@;
                r.push(e.path.clone());
                assert(texts(r@) =~= texts(before).push(e.path@));
            }
            i += 1;
        }
        assert(entries@.take(entries@.len() as int) =~= entries@);
        r
    }
}

/// The paths of the entries of `entries` that `f` shows, in their order.
pub open spec fn selected(f: Filter, entries: Seq<Entry>) -> Seq<Seq<char>>
    decreases entries.len(),
{
    if entries.len() == 0 {
        Seq::empty()
    } else {
        let rest = selected(f, entries.drop_last());
        if f.shows(entries.last()) {
            rest.push(entries.last().path@)
        } else {
            rest
        }
    }
}

/// Every path that a filter selects is the path of an entry that was given,
/// whose type is one of those asked for when any were, and whose file name
/// one of the patterns matches when any were given.
pub proof fn lemma_selected_pass_filter(f: Filter, entries: Seq<Entry>)
    ensures
        forall|j: int|
            0 <= j < selected(f, entries).len() ==> exists|i: int|
                0 <= i < entries.len() && #[trigger] selected(f, entries)[j] == entries[i].path@
                    && (f.type_set().len() > 0 ==> exists|k: int|
                    0 <= k < f.type_set().len() && has_type(entries[i], #[trigger] f.type_set()[k]))
                    && (f.pattern_texts().len() > 0 ==> exists|k: int|
                    0 <= k < f.pattern_texts().len() && regex_match(
                        #[trigger] f.pattern_texts()[k],
                        entries[i].name@,
                    )),
    decreases entries.len(),
{
    if entries.len() > 0 {
        let init = entries.drop_last();
        lemma_selected_pass_filter(f, init);
        let s = selected(f, entries);
        let rest = selected(f, init);
        assert forall|j: int| 0 <= j < s.len() implies exists|i: int|
            0 <= i < entries.len() && #[trigger] s[j] == entries[i].path@
                && (f.type_set().len() > 0 ==> exists|k: int|
                0 <= k < f.type_set().len() && has_type(entries[i], #[trigger] f.type_set()[k]))
                && (f.pattern_texts().len() > 0 ==> exists|k: int|
                0 <= k < f.pattern_texts().len() && regex_match(
                    #[trigger] f.pattern_texts()[k],
                    entries[i].name@,
                )) by {
            if j < rest.len() {
                assert(s[j] == rest[j]);
                let i = choose|i: int|
                    0 <= i < init.len() && #[trigger] rest[j] == init[i].path@
                        && (f.type_set().len() > 0 ==> exists|k: int|
                        0 <= k < f.type_set().len() && has_type(init[i], #[trigger] f.type_set()[k]))
                        && (f.pattern_texts().len() > 0 ==> exists|k: int|
                        0 <= k < f.pattern_texts().len() && regex_match(
                            #[trigger] f.pattern_texts()[k],
                            init[i].name@,
                        ));
                assert(init[i] == entries[i]);
            } else {
                let i = entries.len() - 1;
                assert(s[j] == entries[i].path@);
            }
        }
    }
}

} // verus!
