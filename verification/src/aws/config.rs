//! The flat file format of `~/.aws/credentials` and `~/.aws/config`: section
//! headers in square brackets, each followed by `key = value` lines.

use crate::auth::AuthError;
use crate::text::{
    append_chars, chars_of, contains_char, find_char, has_char, index_of, is_blank,
    lemma_index_of_bounds, lemma_index_of_is, lemma_trim_is_idempotent, lines, split,
    split_lines, split_on, subvec, text_of, trim, trim_bounds, trimmed, views,
};
use vstd::hash_map::StringHashMap;
use vstd::prelude::*;

verus! {

/// What came of reading a configuration file.
#[derive(Debug)]
pub enum FileRead {
    /// There is no such file.
    Missing,
    /// The file exists but could not be read.
    Unreadable,
    /// The text of the file.
    Contents(String),
}

/// What came of reading a configuration file, as text.
pub enum FileText {
    Missing,
    Unreadable,
    Contents(Seq<char>),
}

impl View for FileRead {
    type V = FileText;

    open spec fn view(&self) -> FileText {
        match self {
            FileRead::Missing => FileText::Missing,
            FileRead::Unreadable => FileText::Unreadable,
            FileRead::Contents(text) => FileText::Contents(text@),
        }
    }
}

/// The pairs of a profile where there is one, else the error.
pub open spec fn profile_view(r: Result<RawProfile, AuthError>) -> Result<
    Map<Seq<char>, Seq<char>>,
    AuthError,
> {
    match r {
        Ok(p) => Ok(p@),
        Err(e) => Err(e),
    }
}

/// Whether `line` opens a section: it holds a `[` and, after it, a `]`.
pub open spec fn is_header(line: Seq<char>) -> bool {
    let i = index_of(line, '[');
    i < line.len() && has_char(line.skip(i + 1), ']')
}

/// The name that a header line gives its section: what stands between the
/// first `[` and the first `]` after it, trimmed.
pub open spec fn section_name(line: Seq<char>) -> Seq<char> {
    let rest = line.skip(index_of(line, '[') + 1);
    trim(rest.take(index_of(rest, ']')))
}

/// The state of a scan through the lines of a file: the sections that are
/// complete, and the name and text of the section that is being read.
pub struct Scan {
    pub closed: Map<Seq<char>, Seq<char>>,
    pub current: Option<(Seq<char>, Seq<char>)>,
}

/// The sections of a scan once the section being read is closed too. A later
/// section replaces an earlier one of the same name.
pub open spec fn finish(s: Scan) -> Map<Seq<char>, Seq<char>> {
    match s.current {
        Some((name, block)) => s.closed.insert(name, block),
        None => s.closed,
    }
}

/// The scan after the lines `ls`. A header closes the section being read and
/// opens a new, empty one; any other line is added to the section being
/// read, after a line feed; lines before the first header belong to no
/// section.
pub open spec fn scan(ls: Seq<Seq<char>>) -> Scan
    decreases ls.len(),
{
    if ls.len() == 0 {
        Scan { closed: Map::empty(), current: None }
    } else {
        let before = scan(ls.drop_last());
        let line = ls.last();
        if is_header(line) {
            Scan { closed: finish(before), current: Some((section_name(line), Seq::empty())) }
        } else {
            match before.current {
                Some((name, block)) => Scan {
                    closed: before.closed,
                    current: Some((name, block + seq!['\n'] + line)),
                },
                None => before,
            }
        }
    }
}

/// The sections of a file: from each section's name to the text of its body.
pub open spec fn sections(text: Seq<char>) -> Map<Seq<char>, Seq<char>> {
    finish(scan(lines(text)))
}

/// The trimmed pieces among `pieces` that are not blank.
pub open spec fn meaningful(pieces: Seq<Seq<char>>) -> Seq<Seq<char>>
    decreases pieces.len(),
{
    if pieces.len() == 0 {
        Seq::empty()
    } else if is_blank(pieces.last()) {
        meaningful(pieces.drop_last())
    } else {
        meaningful(pieces.drop_last()).push(trim(pieces.last()))
    }
}

/// What stands between the `=` signs of `line`, trimmed, blanks left out.
pub open spec fn fields(line: Seq<char>) -> Seq<Seq<char>> {
    meaningful(split(line, '='))
}

/// Whether `line` holds a `=` but not exactly a key and a value.
pub open spec fn is_malformed(line: Seq<char>) -> bool {
    has_char(line, '=') && fields(line).len() != 2
}

/// Whether one of the lines is malformed.
pub open spec fn any_malformed(ls: Seq<Seq<char>>) -> bool {
    exists|i: int| 0 <= i < ls.len() && is_malformed(#[trigger] ls[i])
}

/// The key-value pairs on the lines `ls`; lines without a `=` are passed
/// over, and a later pair replaces an earlier one with the same key.
pub open spec fn pairs(ls: Seq<Seq<char>>) -> Map<Seq<char>, Seq<char>>
    decreases ls.len(),
{
    if ls.len() == 0 {
        Map::empty()
    } else {
        let line = ls.last();
        if has_char(line, '=') && fields(line).len() == 2 {
            pairs(ls.drop_last()).insert(fields(line)[0], fields(line)[1])
        } else {
            pairs(ls.drop_last())
        }
    }
}

/// The profile that the body of a section describes: its key-value pairs,
/// or the error of a body with a malformed line.
pub open spec fn profile_of(block: Seq<char>) -> Result<Map<Seq<char>, Seq<char>>, AuthError> {
    if any_malformed(lines(block)) {
        Err(AuthError::MalformedCredentialsFile)
    } else {
        Ok(pairs(lines(block)))
    }
}

/// The profile `name` of a store, or why there is none.
pub open spec fn lookup(store: Map<Seq<char>, Seq<char>>, name: Seq<char>) -> Result<
    Map<Seq<char>, Seq<char>>,
    AuthError,
> {
    if store.contains_key(name) {
        profile_of(store[name])
    } else {
        Err(AuthError::ProfileNotFound)
    }
}

/// The key-value pairs of one profile.
pub struct RawProfile {
    pairs: StringHashMap<String>,
}

impl View for RawProfile {
    type V = Map<Seq<char>, Seq<char>>;

    closed spec fn view(&self) -> Map<Seq<char>, Seq<char>> {
        self.pairs@.map_values(|v: String| v@)
    }
}

impl RawProfile {
    /// A profile without pairs.
    pub fn new() -> (p: RawProfile)
        ensures
            p@ == Map::<Seq<char>, Seq<char>>::empty(),
    {
        let p = RawProfile { pairs: StringHashMap::new() };
        assert(p@ =~= Map::<Seq<char>, Seq<char>>::empty());
        p
    }

    /// Sets `key` to `value`.
    pub fn insert(&mut self, key: String, value: String)
        ensures
            final(self)@ == old(self)@.insert(key@, value@),
    {
        self.pairs.insert(key, value);
        assert(self@ =~= old(self)@.insert(key@, value@));
    }

    /// Whether the profile has a value for `key`.
    pub fn contains_key(&self, key: &str) -> (b: bool)
        ensures
            b == self@.contains_key(key@),
    {
        self.pairs.contains_key(key)
    }

    /// The value of `key`, if the profile has one.
    pub fn get(&self, key: &str) -> (r: Option<String>)
        ensures
            r is Some == self@.contains_key(key@),
            r matches Some(v) ==> v@ == self@[key@],
    {
        match self.pairs.get(key) {
            Some(v) => Some(v.clone()),
            None => None,
        }
    }
}

/// The sections of a configuration file: from each section's name to the
/// text of its body.
pub struct ProfileStore {
    blocks: StringHashMap<String>,
}

impl View for ProfileStore {
    type V = Map<Seq<char>, Seq<char>>;

    closed spec fn view(&self) -> Map<Seq<char>, Seq<char>> {
        self.blocks@.map_values(|v: String| v@)
    }
}

impl ProfileStore {
    /// A store without sections.
    pub fn new() -> (s: ProfileStore)
        ensures
            s@ == Map::<Seq<char>, Seq<char>>::empty(),
    {
        let s = ProfileStore { blocks: StringHashMap::new() };
        assert(s@ =~= Map::<Seq<char>, Seq<char>>::empty());
        s
    }

    /// Sets the body of the section `name`.
    pub fn insert(&mut self, name: String, block: String)
        ensures
            final(self)@ == old(self)@.insert(name@, block@),
    {
        self.blocks.insert(name, block);
        assert(self@ =~= old(self)@.insert(name@, block@));
    }

    /// Whether the store has a section `name`.
    pub fn contains(&self, name: &str) -> (b: bool)
        ensures
            b == self@.contains_key(name@),
    {
        self.blocks.contains_key(name)
    }

    /// The body of the section `name`, if the store has one.
    pub fn block(&self, name: &str) -> (r: Option<String>)
        ensures
            r is Some == self@.contains_key(name@),
            r matches Some(b) ==> b@ == self@[name@],
    {
        match self.blocks.get(name) {
            Some(b) => Some(b.clone()),
            None => None,
        }
    }

    /// The profile `name`: `ProfileNotFound` where the store has no such
    /// section, `MalformedCredentialsFile` where a line of its body holds a
    /// `=` but not exactly a key and a value, else the pairs of the body.
    pub fn get_profile(&self, name: &str) -> (r: Result<RawProfile, AuthError>)
        ensures
            profile_view(r) == lookup(self@, name@),
    {
        match self.blocks.get(name) {
            Some(block) => profile_from_block(block.as_str()),
            None => Err(AuthError::ProfileNotFound),
        }
    }
}

/// The fields of `line`.
fn fields_of(line: &Vec<char>) -> (out: Vec<Vec<char>>)
    ensures
        views(out@) == fields(line@),
{
    let pieces = split_on(line, '=');
    let mut out: Vec<Vec<char>> = Vec::new();
    let mut i: usize = 0;
    assert(views(pieces@).take(0) =~= Seq::<Seq<char>>::empty());
    while i < pieces.len()
        invariant
            i <= pieces.len(),
            views(pieces@) == split(line@, '='),
            views(out@) == meaningful(views(pieces@).take(i as int)),
        decreases pieces.len() - i,
    {
        let piece = trimmed(&pieces[i]);
        proof {
            let done = views(pieces@).take(i as int + 1);
            assert(done.drop_last() =~= views(pieces@).take(i as int));
            assert(done.last() == pieces@[i as int]@);
            assert(views(out@.push(piece)) =~= views(out@).push(piece@));
        }
        if piece.len() > 0 {
            out.push(piece);
        }
        i = i + 1;
    }
    assert(views(pieces@).take(pieces.len() as int) =~= views(pieces@));
    out
}

/// The profile that the body `block` of a section describes.
pub fn profile_from_block(block: &str) -> (r: Result<RawProfile, AuthError>)
    ensures
        profile_view(r) == profile_of(block@),
{
    let text = chars_of(block);
    let ls = split_lines(&text);
    let mut profile = RawProfile::new();
    let mut i: usize = 0;
    assert(views(ls@).take(0) =~= Seq::<Seq<char>>::empty());
    while i < ls.len()
        invariant
            i <= ls.len(),
            views(ls@) == lines(block@),
            profile@ == pairs(views(ls@).take(i as int)),
            forall|j: int| 0 <= j < i ==> !is_malformed(#[trigger] views(ls@)[j]),
        decreases ls.len() - i,
    {
        let line = &ls[i];
        proof {
            let done = views(ls@).take(i as int + 1);
            assert(done.drop_last() =~= views(ls@).take(i as int));
            assert(done.last() == line@);
            assert(views(ls@)[i as int] == line@);
        }
        if contains_char(line, '=') {
            let found = fields_of(line);
            if found.len() != 2 {
                assert(is_malformed(views(ls@)[i as int]));
                return Err(AuthError::MalformedCredentialsFile);
            }
            assert(views(found@)[0] == found@[0]@);
            assert(views(found@)[1] == found@[1]@);
            profile.insert(text_of(&found[0]), text_of(&found[1]));
        }
        i = i + 1;
    }
    assert(views(ls@).take(ls.len() as int) =~= views(ls@));
    Ok(profile)
}

/// The name of the section that `line` opens, if it is a header.
fn header_name(line: &Vec<char>) -> (r: Option<Vec<char>>)
    ensures
        r is Some == is_header(line@),
        r matches Some(n) ==> n@ == section_name(line@),
{
    let open = find_char(line, 0, '[');
    assert(line@.skip(0) =~= line@);
    if open >= line.len() {
        return None;
    }
    let close = find_char(line, open + 1, ']');
    if close >= line.len() {
        return None;
    }
    let (from, to) = trim_bounds(line, open + 1, close);
    proof {
        let rest = line@.skip(open as int + 1);
        assert(rest.take(close - open - 1) =~= line@.subrange(open as int + 1, close as int));
    }
    Some(subvec(line, from, to))
}

/// The sections of the file `block`, from each section's name to the text
/// of its body. A later section replaces an earlier one of the same name.
pub fn get_map(block: &str) -> (store: ProfileStore)
    ensures
        store@ == sections(block@),
{
    let text = chars_of(block);
    let ls = split_lines(&text);
    let mut store = ProfileStore::new();
    let mut reading = false;
    let mut name: Vec<char> = Vec::new();
    let mut body: Vec<char> = Vec::new();
    let mut i: usize = 0;
    assert(views(ls@).take(0) =~= Seq::<Seq<char>>::empty());
    while i < ls.len()
        invariant
            i <= ls.len(),
            views(ls@) == lines(block@),
            scan(views(ls@).take(i as int)).closed == store@,
            reading ==> scan(views(ls@).take(i as int)).current == Some((name@, body@)),
            !reading ==> scan(views(ls@).take(i as int)).current is None,
        decreases ls.len() - i,
    {
        let line = &ls[i];
        proof {
            let done = views(ls@).take(i as int + 1);
            assert(done.drop_last() =~= views(ls@).take(i as int));
            assert(done.last() == line@);
        }
        match header_name(line) {
            Some(n) => {
                if reading {
                    store.insert(text_of(&name), text_of(&body));
                }
                reading = true;
                name = n;
                body = Vec::new();
            },
            None => {
                if reading {
                    let ghost before = body@;
                    body.push('\n');
                    append_chars(&mut body, line);
                    assert(body@ =~= before + seq!['\n'] + line@);
                }
            },
        }
        i = i + 1;
    }
    assert(views(ls@).take(ls.len() as int) =~= views(ls@));
    if reading {
        store.insert(text_of(&name), text_of(&body));
    }
    store
}

/// The sections of a configuration file with the text `file_contents`. An
/// empty file has no sections.
pub fn parse(file_contents: &str) -> (store: ProfileStore)
    ensures
        store@ == sections(file_contents@),
{
    get_map(file_contents)
}

/// The profile `profile` of the file `block`: `ProfileNotFound` where the
/// file has no such section, `MalformedCredentialsFile` where a line of the
/// section holds a `=` but not exactly a key and a value, else its pairs.
pub fn get_profile(block: &str, profile: &str) -> (r: Result<RawProfile, AuthError>)
    ensures
        profile_view(r) == lookup(sections(block@), profile@),
{
    get_map(block).get_profile(profile)
}

/// Whether `t` is not empty and neither begins nor ends with whitespace.
pub open spec fn is_trimmed(t: Seq<char>) -> bool {
    t.len() > 0 && trim(t) == t
}

/// Every meaningful piece is trimmed and not empty.
pub proof fn lemma_meaningful_is_trimmed(pieces: Seq<Seq<char>>)
    ensures
        forall|i: int|
            0 <= i < meaningful(pieces).len() ==> is_trimmed(#[trigger] meaningful(pieces)[i]),
    decreases pieces.len(),
{
    if pieces.len() > 0 {
        let rest = meaningful(pieces.drop_last());
        lemma_meaningful_is_trimmed(pieces.drop_last());
        lemma_trim_is_idempotent(pieces.last());
        assert forall|i: int| 0 <= i < meaningful(pieces).len() implies is_trimmed(
            #[trigger] meaningful(pieces)[i],
        ) by {
            if i < rest.len() {
                assert(meaningful(pieces)[i] == rest[i]);
            }
        }
    }
}

/// Every key and every value of a profile is trimmed and not empty.
pub proof fn lemma_pairs_are_trimmed(ls: Seq<Seq<char>>)
    ensures
        forall|k: Seq<char>| #[trigger]
            pairs(ls).contains_key(k) ==> is_trimmed(k) && is_trimmed(pairs(ls)[k]),
    decreases ls.len(),
{
    if ls.len() > 0 {
        lemma_pairs_are_trimmed(ls.drop_last());
        lemma_meaningful_is_trimmed(split(ls.last(), '='));
        let f = fields(ls.last());
        let before = pairs(ls.drop_last());
        assert forall|k: Seq<char>| #[trigger] pairs(ls).contains_key(k) implies is_trimmed(k)
            && is_trimmed(pairs(ls)[k]) by {
            if has_char(ls.last(), '=') && f.len() == 2 {
                assert(is_trimmed(f[0]) && is_trimmed(f[1]));
                if k != f[0] {
                    assert(before.contains_key(k));
                }
            } else {
                assert(before.contains_key(k));
            }
        }
    }
}

/// Whether line `i` of `ls` is the last that assigns to `key`.
pub open spec fn assigns_last(ls: Seq<Seq<char>>, i: int, key: Seq<char>) -> bool {
    &&& 0 <= i < ls.len()
    &&& has_char(ls[i], '=')
    &&& fields(ls[i]).len() == 2
    &&& fields(ls[i])[0] == key
    &&& forall|j: int|
        i < j < ls.len() ==> !(has_char(#[trigger] ls[j], '=') && fields(ls[j]).len() == 2
            && fields(ls[j])[0] == key)
}

/// A profile gives a key the value of the last line that assigns to it.
pub proof fn lemma_last_assignment_wins(ls: Seq<Seq<char>>, i: int, key: Seq<char>)
    requires
        assigns_last(ls, i, key),
    ensures
        pairs(ls).contains_key(key),
        pairs(ls)[key] == fields(ls[i])[1],
    decreases ls.len(),
{
    if i < ls.len() - 1 {
        let before = ls.drop_last();
        assert(ls[ls.len() - 1] == ls.last());
        assert forall|j: int| i < j < before.len() implies !(has_char(#[trigger] before[j], '=')
            && fields(before[j]).len() == 2 && fields(before[j])[0] == key) by {
            assert(before[j] == ls[j]);
        }
        assert(before[i] == ls[i]);
        lemma_last_assignment_wins(before, i, key);
    }
}

/// A profile has no key that no line assigns to.
pub proof fn lemma_unassigned_key_is_absent(ls: Seq<Seq<char>>, key: Seq<char>)
    requires
        forall|j: int|
            0 <= j < ls.len() ==> !(has_char(#[trigger] ls[j], '=') && fields(ls[j]).len() == 2
                && fields(ls[j])[0] == key),
    ensures
        !pairs(ls).contains_key(key),
    decreases ls.len(),
{
    if ls.len() > 0 {
        let before = ls.drop_last();
        assert(ls[ls.len() - 1] == ls.last());
        assert forall|j: int| 0 <= j < before.len() implies !(has_char(#[trigger] before[j], '=')
            && fields(before[j]).len() == 2 && fields(before[j])[0] == key) by {
            assert(before[j] == ls[j]);
        }
        lemma_unassigned_key_is_absent(before, key);
    }
}

/// An empty file has no sections, and no profile can be found in it.
pub proof fn lemma_empty_file_has_no_sections(name: Seq<char>)
    ensures
        sections(Seq::empty()) == Map::<Seq<char>, Seq<char>>::empty(),
        lookup(sections(Seq::empty()), name) == Err::<Map<Seq<char>, Seq<char>>, AuthError>(
            AuthError::ProfileNotFound,
        ),
{
    assert(lines(Seq::<char>::empty()) =~= Seq::<Seq<char>>::empty());
}

/// A section without a body is a profile without pairs.
pub proof fn lemma_empty_body_is_empty_profile()
    ensures
        profile_of(Seq::empty()) == Ok::<Map<Seq<char>, Seq<char>>, AuthError>(Map::empty()),
{
    assert(lines(Seq::<char>::empty()) =~= Seq::<Seq<char>>::empty());
}

/// A malformed line fails the lookup of its own profile and of no other:
/// what a lookup gives depends on the body of that one section.
pub proof fn lemma_lookup_reads_one_section(
    a: Map<Seq<char>, Seq<char>>,
    b: Map<Seq<char>, Seq<char>>,
    name: Seq<char>,
)
    requires
        a.contains_key(name),
        b.contains_key(name),
        a[name] == b[name],
    ensures
        lookup(a, name) == lookup(b, name),
{
}

/// A line made of a key, a `=` and a value has the trimmed key and the
/// trimmed value as its two fields.
pub proof fn lemma_fields_of_assignment(key: Seq<char>, value: Seq<char>)
    requires
        !has_char(key, '='),
        !has_char(value, '='),
        !is_blank(key),
        !is_blank(value),
    ensures
        has_char(key + seq!['='] + value, '='),
        fields(key + seq!['='] + value) == seq![trim(key), trim(value)],
        !is_malformed(key + seq!['='] + value),
{
    let line = key + seq!['='] + value;
    lemma_index_of_bounds(key, '=');
    lemma_index_of_bounds(value, '=');
    assert forall|k: int| 0 <= k < key.len() implies line[k] != '=' by {
        assert(line[k] == key[k]);
    }
    assert(line[key.len() as int] == '=');
    lemma_index_of_is(line, '=', key.len() as int);
    assert(line.take(key.len() as int) =~= key);
    assert(line.skip(key.len() as int + 1) =~= value);
    assert(split(value, '=') =~= seq![value]);
    let pieces = split(line, '=');
    assert(pieces =~= seq![key, value]);
    assert(pieces.drop_last() =~= seq![key]);
    let none = Seq::<Seq<char>>::empty();
    assert(seq![key].drop_last() =~= none);
    assert(seq![key].last() == key);
    assert(meaningful(none) =~= none);
    assert(meaningful(seq![key]) == meaningful(none).push(trim(key)));
    assert(meaningful(seq![key]) =~= seq![trim(key)]);
    assert(pieces.last() == value);
    assert(meaningful(pieces) =~= seq![trim(key), trim(value)]);
}

/// A name in square brackets is a header, and names the section by the
/// trimmed name.
pub proof fn lemma_header_names_section(name: Seq<char>)
    requires
        !has_char(name, '['),
        !has_char(name, ']'),
    ensures
        is_header(seq!['['] + name + seq![']']),
        section_name(seq!['['] + name + seq![']']) == trim(name),
{
    let line = seq!['['] + name + seq![']'];
    assert(line[0] == '[');
    lemma_index_of_is(line, '[', 0);
    let rest = line.skip(1);
    assert(rest =~= name + seq![']']);
    lemma_index_of_bounds(name, ']');
    assert forall|k: int| 0 <= k < name.len() implies rest[k] != ']' by {
        assert(rest[k] == name[k]);
    }
    assert(rest[name.len() as int] == ']');
    lemma_index_of_is(rest, ']', name.len() as int);
    assert(rest.take(name.len() as int) =~= name);
}

/// The lines `ls[from..to]`, each after a line feed.
pub open spec fn joined(ls: Seq<Seq<char>>, from: int, to: int) -> Seq<char>
    decreases to - from,
{
    if from >= to {
        Seq::empty()
    } else {
        joined(ls, from, to - 1) + seq!['\n'] + ls[to - 1]
    }
}

/// The index of the first header at or after `from`, or the number of
/// lines where none follows.
pub open spec fn next_header(ls: Seq<Seq<char>>, from: int) -> int
    decreases ls.len() - from,
{
    if from < 0 || from >= ls.len() {
        ls.len() as int
    } else if is_header(ls[from]) {
        from
    } else {
        next_header(ls, from + 1)
    }
}

/// `next_header` lies at or after `from`, is a header where it is a line,
/// and no header stands between `from` and it.
pub proof fn lemma_next_header(ls: Seq<Seq<char>>, from: int)
    requires
        0 <= from <= ls.len(),
    ensures
        from <= next_header(ls, from) <= ls.len(),
        next_header(ls, from) < ls.len() ==> is_header(ls[next_header(ls, from)]),
        forall|k: int| from <= k < next_header(ls, from) ==> !is_header(#[trigger] ls[k]),
    decreases ls.len() - from,
{
    if from < ls.len() && !is_header(ls[from]) {
        lemma_next_header(ls, from + 1);
    }
}

/// Whether line `i` is a header whose name no later header bears.
pub open spec fn opens_last(ls: Seq<Seq<char>>, i: int) -> bool {
    &&& 0 <= i < ls.len()
    &&& is_header(ls[i])
    &&& forall|j: int|
        i < j < ls.len() && is_header(#[trigger] ls[j]) ==> section_name(ls[j]) != section_name(
            ls[i],
        )
}

/// The scan after `n` lines, seen from the header on line `i`: up to the
/// next header its section is being read, after that it is closed.
proof fn lemma_scan_of_section(ls: Seq<Seq<char>>, i: int, n: int)
    requires
        opens_last(ls, i),
        i < n <= ls.len(),
    ensures
        n <= next_header(ls, i + 1) ==> scan(ls.take(n)).current == Some(
            (section_name(ls[i]), joined(ls, i + 1, n)),
        ),
        n > next_header(ls, i + 1) ==> {
            &&& scan(ls.take(n)).closed.contains_key(section_name(ls[i]))
            &&& scan(ls.take(n)).closed[section_name(ls[i])] == joined(
                ls,
                i + 1,
                next_header(ls, i + 1),
            )
            &&& scan(ls.take(n)).current matches Some(c) && c.0 != section_name(ls[i])
        },
    decreases n,
{
    let end = next_header(ls, i + 1);
    lemma_next_header(ls, i + 1);
    let now = ls.take(n);
    assert(now.drop_last() =~= ls.take(n - 1));
    assert(now.last() == ls[n - 1]);
    if n > i + 1 {
        lemma_scan_of_section(ls, i, n - 1);
        if n - 1 < end {
            assert(!is_header(ls[n - 1]));
        } else if n - 1 == end {
            assert(is_header(ls[n - 1]));
        }
    }
}

/// The section that the last header of a name opens holds the lines up to
/// the next header, each after a line feed.
pub proof fn lemma_section_body(ls: Seq<Seq<char>>, i: int)
    requires
        opens_last(ls, i),
    ensures
        finish(scan(ls)).contains_key(section_name(ls[i])),
        finish(scan(ls))[section_name(ls[i])] == joined(ls, i + 1, next_header(ls, i + 1)),
{
    lemma_next_header(ls, i + 1);
    lemma_scan_of_section(ls, i, ls.len() as int);
    assert(ls.take(ls.len() as int) =~= ls);
}

/// A store has no section whose name no header bears.
pub proof fn lemma_unnamed_section_is_absent(ls: Seq<Seq<char>>, name: Seq<char>)
    requires
        forall|j: int|
            0 <= j < ls.len() && is_header(#[trigger] ls[j]) ==> section_name(ls[j]) != name,
    ensures
        !finish(scan(ls)).contains_key(name),
    decreases ls.len(),
{
    if ls.len() > 0 {
        let before = ls.drop_last();
        assert(ls[ls.len() - 1] == ls.last());
        assert forall|j: int| 0 <= j < before.len() && is_header(
            #[trigger] before[j],
        ) implies section_name(before[j]) != name by {
            assert(before[j] == ls[j]);
        }
        lemma_unnamed_section_is_absent(before, name);
    }
}

} // verus!
