//! Profiles: their in-memory form, their validation, where they are stored
//! and how stored profiles are listed.
use vstd::prelude::*;

use crate::text::{chars_of, ends_with, same_text, views};

verus! {

// ---------------------------------------------------------------------------
// Environment variables of a profile

/// The views of key/value pairs of strings.
pub open spec fn pair_views(v: Seq<(String, String)>) -> Seq<(Seq<char>, Seq<char>)> {
    v.map_values(|p: (String, String)| (p.0@, p.1@))
}

/// The map that a sequence of pairs denotes, later pairs overriding earlier ones.
pub open spec fn pairs_to_map(p: Seq<(Seq<char>, Seq<char>)>) -> Map<Seq<char>, Seq<char>>
    decreases p.len(),
{
    if p.len() == 0 {
        Map::empty()
    } else {
        pairs_to_map(p.drop_last()).insert(p.last().0, p.last().1)
    }
}

/// No key occurs twice among the pairs.
pub open spec fn distinct_keys(p: Seq<(Seq<char>, Seq<char>)>) -> bool {
    forall|i: int, j: int| 0 <= i < j < p.len() ==> p[i].0 != p[j].0
}

/// With distinct keys, the map of the pairs holds exactly their keys, each
/// with its own value.
pub proof fn lemma_pairs_to_map(p: Seq<(Seq<char>, Seq<char>)>)
    requires
        distinct_keys(p),
    ensures
        forall|k: Seq<char>|
            #[trigger] pairs_to_map(p).dom().contains(k) <==> exists|i: int|
                0 <= i < p.len() && p[i].0 == k,
        forall|i: int| 0 <= i < p.len() ==> #[trigger] pairs_to_map(p)[p[i].0] == p[i].1,
        pairs_to_map(p).dom().finite(),
        pairs_to_map(p).len() == p.len(),
    decreases p.len(),
{
    if p.len() > 0 {
        let q = p.drop_last();
        assert(distinct_keys(q));
        lemma_pairs_to_map(q);
        assert(!pairs_to_map(q).dom().contains(p.last().0)) by {
            if pairs_to_map(q).dom().contains(p.last().0) {
                let i = choose|i: int| 0 <= i < q.len() && q[i].0 == p.last().0;
                assert(p[i].0 == p[p.len() - 1].0);
            }
        }
        assert forall|k: Seq<char>|
            #[trigger] pairs_to_map(p).dom().contains(k) <==> exists|i: int|
                0 <= i < p.len() && p[i].0 == k by {
            if pairs_to_map(p).dom().contains(k) && k != p.last().0 {
                let i = choose|i: int| 0 <= i < q.len() && q[i].0 == k;
                assert(p[i].0 == k);
            }
            if exists|i: int| 0 <= i < p.len() && p[i].0 == k {
                let i = choose|i: int| 0 <= i < p.len() && p[i].0 == k;
                if i < q.len() {
                    assert(q[i].0 == k);
                }
            }
        }
        assert forall|i: int| 0 <= i < p.len() implies #[trigger] pairs_to_map(p)[p[i].0]
            == p[i].1 by {
            if i < q.len() {
                assert(q[i] == p[i]);
                assert(p[i].0 != p.last().0);
            }
        }
    }
}

/// Replacing the value of a key that is present sets that key in the map.
pub proof fn lemma_pairs_update(p: Seq<(Seq<char>, Seq<char>)>, i: int, v: Seq<char>)
    requires
        distinct_keys(p),
        0 <= i < p.len(),
    ensures
        distinct_keys(p.update(i, (p[i].0, v))),
        pairs_to_map(p.update(i, (p[i].0, v))) == pairs_to_map(p).insert(p[i].0, v),
{
    let q = p.update(i, (p[i].0, v));
    assert(distinct_keys(q));
    lemma_pairs_to_map(p);
    lemma_pairs_to_map(q);
    assert forall|k: Seq<char>| #[trigger] pairs_to_map(q).dom().contains(k) <==> pairs_to_map(
        p,
    ).insert(p[i].0, v).dom().contains(k) by {
        if pairs_to_map(q).dom().contains(k) {
            let j = choose|j: int| 0 <= j < q.len() && q[j].0 == k;
            assert(p[j].0 == k);
        }
        if pairs_to_map(p).dom().contains(k) {
            let j = choose|j: int| 0 <= j < p.len() && p[j].0 == k;
            assert(q[j].0 == k);
        }
    }
    assert forall|k: Seq<char>| #[trigger] pairs_to_map(q).dom().contains(k) implies pairs_to_map(
        q,
    )[k] == pairs_to_map(p).insert(p[i].0, v)[k] by {
        let j = choose|j: int| 0 <= j < q.len() && q[j].0 == k;
        assert(pairs_to_map(q)[q[j].0] == q[j].1);
        if j != i {
            assert(pairs_to_map(p)[p[j].0] == p[j].1);
        }
    }
    assert(pairs_to_map(q) =~= pairs_to_map(p).insert(p[i].0, v));
}

/// The environment variables of a profile: a map from names to values that
/// remembers the order in which names were first inserted.
pub struct EnvMap {
    entries: Vec<(String, String)>,
}

impl EnvMap {
    /// The entries in insertion order, as character sequences.
    pub closed spec fn pairs(&self) -> Seq<(Seq<char>, Seq<char>)> {
        pair_views(self.entries@)
    }

    #[verifier::type_invariant]
    spec fn keys_are_distinct(&self) -> bool {
        distinct_keys(self.pairs())
    }

    /// An empty map.
    pub fn new() -> (r: EnvMap)
        ensures
            r.pairs() == Seq::<(Seq<char>, Seq<char>)>::empty(),
            r@ == Map::<Seq<char>, Seq<char>>::empty(),
    {
        let r = EnvMap { entries: Vec::new() };
        assert(r.pairs() =~= Seq::<(Seq<char>, Seq<char>)>::empty());
        r
    }

    /// The number of variables.
    pub fn len(&self) -> (r: usize)
        ensures
            r == self.pairs().len(),
            r == self@.len(),
    {
        proof {
            use_type_invariant(self);
            lemma_pairs_to_map(self.pairs());
        }
        self.entries.len()
    }

    /// Whether the map holds no variable.
    pub fn is_empty(&self) -> (r: bool)
        ensures
            r == (self.pairs().len() == 0),
            r == (self@.len() == 0),
    {
        self.len() == 0
    }

    /// The position of `key` among the entries, if it is there.
    fn position(&self, key: &str) -> (r: Option<usize>)
        ensures
            match r {
                Some(i) => i < self.pairs().len() && self.pairs()[i as int].0 == key@,
                None => forall|i: int| 0 <= i < self.pairs().len() ==> self.pairs()[i].0 != key@,
            },
    {
        let n = self.entries.len();
        for i in 0..n
            invariant
                n == self.entries@.len(),
                forall|j: int| 0 <= j < i ==> self.pairs()[j].0 != key@,
        {
            if same_text(self.entries[i].0.as_str(), key) {
                return Some(i);
            }
        }
        None
    }

    /// The value of `key` (`HashMap::get`).
    pub fn get(&self, key: &str) -> (r: Option<&String>)
        ensures
            match r {
                Some(v) => self@.dom().contains(key@) && self@[key@] == v@,
                None => !self@.dom().contains(key@),
            },
    {
        proof {
            use_type_invariant(self);
            lemma_pairs_to_map(self.pairs());
        }
        match self.position(key) {
            Some(i) => Some(&self.entries[i].1),
            None => None,
        }
    }

    /// Sets `key` to `value`, returning the value it replaced (`HashMap::insert`).
    /// A new name goes after all others; a known name keeps its place.
    pub fn insert(&mut self, key: String, value: String) -> (r: Option<String>)
        ensures
            final(self)@ == old(self)@.insert(key@, value@),
            match r {
                Some(v) => old(self)@.dom().contains(key@) && old(self)@[key@] == v@,
                None => !old(self)@.dom().contains(key@),
            },
            !old(self)@.dom().contains(key@) ==> final(self).pairs() == old(self).pairs().push(
                (key@, value@),
            ),
            old(self)@.dom().contains(key@) ==> exists|i: int|
                0 <= i < old(self).pairs().len() && old(self).pairs()[i].0 == key@
                    && final(self).pairs() == old(self).pairs().update(i, (key@, value@)),
    {
        proof {
            use_type_invariant(&*self);
            lemma_pairs_to_map(self.pairs());
        }
        let ghost old_pairs = self.pairs();
        match self.position(key.as_str()) {
            Some(i) => {
                let old_value = self.entries[i].1.clone();
                let ghost k = key@;
                let ghost v = value@;
                let mut entries: Vec<(String, String)> = Vec::new();
                std::mem::swap(&mut entries, &mut self.entries);
                entries.set(i, (key, value));
                proof {
                    assert(pair_views(entries@) =~= old_pairs.update(i as int, (k, v)));
                    lemma_pairs_update(old_pairs, i as int, v);
                }
                self.entries = entries;
                Some(old_value)
            },
            None => {
                let ghost k = key@;
                let ghost v = value@;
                let mut entries: Vec<(String, String)> = Vec::new();
                std::mem::swap(&mut entries, &mut self.entries);
                entries.push((key, value));
                proof {
                    assert(pair_views(entries@) =~= old_pairs.push((k, v)));
                }
                self.entries = entries;
                proof {
                    assert(self.pairs() =~= old_pairs.push((k, v)));
                    assert(self.pairs().drop_last() == old_pairs);
                }
                None
            },
        }
    }

    /// The entries in insertion order.
    pub fn entries(&self) -> (r: &Vec<(String, String)>)
        ensures
            pair_views(r@) == self.pairs(),
            distinct_keys(self.pairs()),
    {
        proof {
            use_type_invariant(self);
        }
        &self.entries
    }
}

impl View for EnvMap {
    type V = Map<Seq<char>, Seq<char>>;

    open spec fn view(&self) -> Map<Seq<char>, Seq<char>> {
        pairs_to_map(self.pairs())
    }
}

// ---------------------------------------------------------------------------
// Profiles

/// A development environment profile: the packages it needs, the variables it
/// sets and the commands that prepare it.
pub struct ProfileConfig {
    pub name: String,
    pub packages: Vec<String>,
    pub env: EnvMap,
    pub setup: Vec<String>,
}

/// Why a profile was refused.
#[derive(Debug, PartialEq, Eq, Structural, Clone, Copy)]
pub enum ConfigError {
    /// The profile's `name` is the empty string.
    EmptyName,
}

impl ConfigError {
    /// The message shown to the user.
    pub fn message(&self) -> (r: String)
        ensures
            r@ == "profile name must not be empty"@,
    {
        match self {
            ConfigError::EmptyName => "profile name must not be empty".to_string(),
        }
    }
}

/// Accepts a parsed profile when its name is not empty.
pub fn check_profile(config: ProfileConfig) -> (r: Result<ProfileConfig, ConfigError>)
    ensures
        config.name@.len() == 0 <==> r == Err::<ProfileConfig, ConfigError>(ConfigError::EmptyName),
        config.name@.len() > 0 <==> r == Ok::<ProfileConfig, ConfigError>(config),
{
    if config.name.as_str().is_empty() {
        Err(ConfigError::EmptyName)
    } else {
        Ok(config)
    }
}

/// The characters `.yaml`.
pub open spec fn yaml_suffix() -> Seq<char> {
    seq!['.', 'y', 'a', 'm', 'l']
}

/// The name of the file that stores the profile `name`.
pub open spec fn profile_file(name: Seq<char>) -> Seq<char> {
    name + yaml_suffix()
}

/// The name of the file that stores the profile `name`: `<name>.yaml`.
pub fn profile_file_name(name: &str) -> (r: String)
    ensures
        r@ == profile_file(name@),
{
    let mut r = name.to_string();
    r.append(".yaml");
    proof {
        reveal_strlit(".yaml");
        assert(".yaml"@ =~= yaml_suffix());
    }
    r
}

/// The profile that a file in the profiles directory holds: the file's stem
/// when its extension is `yaml` (the stem must not be empty, as for
/// `Path::extension`).
pub open spec fn yaml_stem(file: Seq<char>) -> Option<Seq<char>> {
    if file.len() > yaml_suffix().len() && ends_with(file, yaml_suffix()) {
        Some(file.take(file.len() - yaml_suffix().len()))
    } else {
        None
    }
}

/// The stems of the `yaml` files among `files`, in their order.
pub open spec fn yaml_stems(files: Seq<Seq<char>>) -> Seq<Seq<char>>
    decreases files.len(),
{
    if files.len() == 0 {
        Seq::empty()
    } else {
        let rest = yaml_stems(files.drop_last());
        match yaml_stem(files.last()) {
            Some(s) => rest.push(s),
            None => rest,
        }
    }
}

/// A stored profile is found again under its own name.
pub proof fn lemma_stored_profile_is_listed(name: Seq<char>)
    requires
        name.len() > 0,
    ensures
        yaml_stem(profile_file(name)) == Some(name),
{
    let f = profile_file(name);
    assert(f.subrange(f.len() - 5, f.len() as int) =~= yaml_suffix());
    assert(f.take(f.len() - 5) =~= name);
}

fn yaml_stem_of(file: &str) -> (r: Option<String>)
    ensures
        match r {
            Some(s) => yaml_stem(file@) == Some(s@),
            None => yaml_stem(file@) is None,
        },
{
    let x = chars_of(file);
    let n = x.len();
    if n <= 5 {
        return None;
    }
    let ok = x[n - 5] == '.' && x[n - 4] == 'y' && x[n - 3] == 'a' && x[n - 2] == 'm' && x[n - 1]
        == 'l';
    proof {
        let tail = file@.subrange(n - 5, n as int);
        if ok {
            assert(tail =~= yaml_suffix());
        } else {
            assert(tail != yaml_suffix()) by {
                if tail == yaml_suffix() {
                    assert(tail[0] == '.' && tail[1] == 'y' && tail[2] == 'a' && tail[3] == 'm'
                        && tail[4] == 'l');
                }
            }
        }
    }
    if !ok {
        return None;
    }
    let mut s = String::new();
    for i in 0..n - 5
        invariant
            n == x@.len(),
            n > 5,
            s@ == x@.take(i as int),
    {
        crate::text::push_char(&mut s, x[i]);
        assert(x@.take(i + 1) == x@.take(i as int).push(x@[i as int]));
    }
    Some(s)
}


/// The profile that `init` writes for `name`: the name, and commented
/// examples of packages, variables and setup commands.
pub open spec fn template(name: Seq<char>) -> Seq<char> {
    "name: \""@ + name
        + "\"\n\npackages:\n  # - gcc\n  # - cmake\n\nenv:\n  # CC: gcc\n  # CXX: g++\n\nsetup:\n  # - echo \"setup complete\"\n"@
}

/// The profile that `init` writes for `name`.
pub fn profile_template(name: &str) -> (r: String)
    ensures
        r@ == template(name@),
{
    let mut r = "name: \"".to_string();
    r.append(name);
    r.append(
        "\"\n\npackages:\n  # - gcc\n  # - cmake\n\nenv:\n  # CC: gcc\n  # CXX: g++\n\nsetup:\n  # - echo \"setup complete\"\n",
    );
    r
}

/// The line that `list` shows for a profile.
pub open spec fn list_line(profile: Seq<char>, packages: nat, variables: nat, path: Seq<char>) -> Seq<
    char,
> {
    "  "@ + profile + "  (packages: "@ + crate::text::decimal(packages) + ", env vars: "@
        + crate::text::decimal(variables) + ", config: "@ + path + ")"@
}

/// The line that `list` shows for a profile with that many packages and
/// variables, stored at `path`.
pub fn list_entry(profile: &str, packages: usize, variables: usize, path: &str) -> (r: String)
    ensures
        r@ == list_line(profile@, packages as nat, variables as nat, path@),
{
    let mut r = "  ".to_string();
    r.append(profile);
    r.append("  (packages: ");
    crate::text::push_decimal(&mut r, packages as u64);
    r.append(", env vars: ");
    crate::text::push_decimal(&mut r, variables as u64);
    r.append(", config: ");
    r.append(path);
    r.append(")");
    r
}


// ---------------------------------------------------------------------------
// Commands that change the profiles directory

/// Whether a command changes files or only shows what it would change.
#[derive(Debug, PartialEq, Eq, Structural, Clone, Copy)]
pub enum FileChange {
    /// Write, copy or remove the file.
    Apply,
    /// Dry run: report the change and make none.
    Preview,
}

/// Why a command on the profiles directory is refused.
#[derive(Debug, PartialEq, Eq)]
pub enum ProfileError {
    /// `init`: a profile of that name is already stored at `path`.
    AlreadyExists { name: String, path: String },
    /// `create`: the file to import does not exist.
    ConfigNotFound { path: String },
    /// `remove`: no profile of that name is stored.
    ProfileNotFound { name: String },
}

/// The message shown for a refused command.
pub open spec fn profile_error_message(e: ProfileError) -> Seq<char> {
    match e {
        ProfileError::AlreadyExists { name, path } => "profile '"@ + name@ + "' already exists at "@
            + path@,
        ProfileError::ConfigNotFound { path } => "config file not found: "@ + path@,
        ProfileError::ProfileNotFound { name } => "profile '"@ + name@ + "' not found"@,
    }
}

impl ProfileError {
    /// The message shown for the error.
    pub fn message(&self) -> (r: String)
        ensures
            r@ == profile_error_message(*self),
    {
        match self {
            ProfileError::AlreadyExists { name, path } => {
                let mut m = "profile '".to_string();
                m.append(name.as_str());
                m.append("' already exists at ");
                m.append(path.as_str());
                m
            },
            ProfileError::ConfigNotFound { path } => {
                let mut m = "config file not found: ".to_string();
                m.append(path.as_str());
                m
            },
            ProfileError::ProfileNotFound { name } => {
                let mut m = "profile '".to_string();
                m.append(name.as_str());
                m.append("' not found");
                m
            },
        }
    }
}

/// The change a command makes, unless it is refused: none in a dry run.
pub open spec fn change_for(dry_run: bool) -> FileChange {
    if dry_run {
        FileChange::Preview
    } else {
        FileChange::Apply
    }
}

/// `init`: refused when the profile's file (at `path`) already exists; in a
/// dry run the template is only shown; otherwise it is written.
pub fn init_change(name: &str, path: &str, exists: bool, dry_run: bool) -> (r: Result<
    FileChange,
    ProfileError,
>)
    ensures
        exists ==> (r matches Err(ProfileError::AlreadyExists { name: n, path: p }) && n@ == name@
            && p@ == path@),
        !exists ==> r == Ok::<FileChange, ProfileError>(change_for(dry_run)),
{
    if exists {
        Err(ProfileError::AlreadyExists { name: name.to_string(), path: path.to_string() })
    } else if dry_run {
        Ok(FileChange::Preview)
    } else {
        Ok(FileChange::Apply)
    }
}

/// `create`: refused when the file to import does not exist; in a dry run
/// nothing is copied; otherwise it is copied into the profiles directory.
pub fn create_change(path: &str, exists: bool, dry_run: bool) -> (r: Result<
    FileChange,
    ProfileError,
>)
    ensures
        !exists ==> (r matches Err(ProfileError::ConfigNotFound { path: p }) && p@ == path@),
        exists ==> r == Ok::<FileChange, ProfileError>(change_for(dry_run)),
{
    if !exists {
        Err(ProfileError::ConfigNotFound { path: path.to_string() })
    } else if dry_run {
        Ok(FileChange::Preview)
    } else {
        Ok(FileChange::Apply)
    }
}

/// `remove`: refused when no profile of that name is stored; in a dry run
/// nothing is removed; otherwise its file is removed.
pub fn remove_change(name: &str, exists: bool, dry_run: bool) -> (r: Result<
    FileChange,
    ProfileError,
>)
    ensures
        !exists ==> (r matches Err(ProfileError::ProfileNotFound { name: n }) && n@ == name@),
        exists ==> r == Ok::<FileChange, ProfileError>(change_for(dry_run)),
{
    if !exists {
        Err(ProfileError::ProfileNotFound { name: name.to_string() })
    } else if dry_run {
        Ok(FileChange::Preview)
    } else {
        Ok(FileChange::Apply)
    }
}

// ---------------------------------------------------------------------------
// Ordering of profile names

/// `a` comes before `b`, or equals it, in the order of `String`: character
/// by character, by code point (the order of their UTF-8 bytes).
pub open spec fn text_le(a: Seq<char>, b: Seq<char>) -> bool
    decreases a.len(),
{
    if a.len() == 0 {
        true
    } else if b.len() == 0 {
        false
    } else if (a[0] as u32) != (b[0] as u32) {
        (a[0] as u32) < (b[0] as u32)
    } else {
        text_le(a.drop_first(), b.drop_first())
    }
}

/// `a` comes before `b` in the lexicographic order by code point: either
/// `a` is a prefix of `b`, or at the first position where they differ the
/// character of `a` has the smaller code point; length plays no other part.
pub open spec fn lexicographic_le(a: Seq<char>, b: Seq<char>) -> bool {
    ||| (a.len() <= b.len() && b.take(a.len() as int) == a)
    ||| exists|i: int|
        0 <= i < a.len() && i < b.len() && a.take(i) == b.take(i) && (a[i] as u32) < (
        b[i] as u32)
}

/// `text_le` is the lexicographic order by code point, the order of `String`.
pub proof fn lemma_text_le_is_lexicographic(a: Seq<char>, b: Seq<char>)
    ensures
        text_le(a, b) <==> lexicographic_le(a, b),
    decreases a.len(),
{
    if a.len() == 0 {
        assert(b.take(0) =~= a);
    } else if b.len() == 0 {
        assert(!lexicographic_le(a, b));
    } else if (a[0] as u32) != (b[0] as u32) {
        assert(a.take(0) =~= b.take(0));
        if (a[0] as u32) < (b[0] as u32) {
            assert(lexicographic_le(a, b));
        } else {
            assert(!lexicographic_le(a, b)) by {
                if a.len() <= b.len() && b.take(a.len() as int) == a {
                    assert(b.take(a.len() as int)[0] == b[0]);
                }
                if exists|i: int|
                    0 <= i < a.len() && i < b.len() && a.take(i) == b.take(i) && (a[i] as u32) < (
                    b[i] as u32) {
                    let i = choose|i: int|
                        0 <= i < a.len() && i < b.len() && a.take(i) == b.take(i) && (a[i] as u32)
                            < (b[i] as u32);
                    if i > 0 {
                        assert(a.take(i)[0] == b.take(i)[0]);
                    }
                }
            }
        }
    } else {
        let a1 = a.drop_first();
        let b1 = b.drop_first();
        lemma_text_le_is_lexicographic(a1, b1);
        assert(a[0] == b[0]) by {
            vstd::utf8::char_u32_cast(a[0], a[0] as u32);
            vstd::utf8::char_u32_cast(b[0], b[0] as u32);
        }
        if lexicographic_le(a1, b1) {
            if a1.len() <= b1.len() && b1.take(a1.len() as int) == a1 {
                assert(b.take(a.len() as int) =~= a) by {
                    assert forall|j: int| 0 <= j < a.len() implies #[trigger] b.take(a.len() as int)[j]
                        == a[j] by {
                        if j > 0 {
                            assert(b1.take(a1.len() as int)[j - 1] == a1[j - 1]);
                        }
                    }
                }
            } else {
                let i = choose|i: int|
                    0 <= i < a1.len() && i < b1.len() && a1.take(i) == b1.take(i) && (a1[i] as u32)
                        < (b1[i] as u32);
                assert(a.take(i + 1) =~= b.take(i + 1)) by {
                    assert forall|j: int| 0 <= j < i + 1 implies #[trigger] a.take(i + 1)[j] == b.take(
                        i + 1,
                    )[j] by {
                        if j > 0 {
                            assert(a1.take(i)[j - 1] == b1.take(i)[j - 1]);
                        }
                    }
                }
                assert(0 <= i + 1 < a.len() && i + 1 < b.len() && a.take(i + 1) == b.take(i + 1)
                    && (a[i + 1] as u32) < (b[i + 1] as u32));
            }
        }
        if lexicographic_le(a, b) {
            if a.len() <= b.len() && b.take(a.len() as int) == a {
                assert(b1.take(a1.len() as int) =~= a1) by {
                    assert forall|j: int| 0 <= j < a1.len() implies #[trigger] b1.take(
                        a1.len() as int,
                    )[j] == a1[j] by {
                        assert(b.take(a.len() as int)[j + 1] == a[j + 1]);
                    }
                }
            } else {
                let i = choose|i: int|
                    0 <= i < a.len() && i < b.len() && a.take(i) == b.take(i) && (a[i] as u32) < (
                    b[i] as u32);
                assert(i > 0);
                assert(a1.take(i - 1) =~= b1.take(i - 1)) by {
                    assert forall|j: int| 0 <= j < i - 1 implies #[trigger] a1.take(i - 1)[j] == b1.take(
                        i - 1,
                    )[j] by {
                        assert(a.take(i)[j + 1] == b.take(i)[j + 1]);
                    }
                }
                assert(0 <= i - 1 < a1.len() && i - 1 < b1.len() && a1.take(i - 1) == b1.take(i - 1)
                    && (a1[i - 1] as u32) < (b1[i - 1] as u32));
            }
        }
    }
}

/// Every name comes before, or equals, each name after it.
pub open spec fn sorted(s: Seq<Seq<char>>) -> bool {
    forall|i: int, j: int| 0 <= i < j < s.len() ==> text_le(s[i], s[j])
}

/// Any two names are ordered one way or the other.
pub proof fn lemma_text_le_total(a: Seq<char>, b: Seq<char>)
    ensures
        text_le(a, b) || text_le(b, a),
    decreases a.len(),
{
    if a.len() > 0 && b.len() > 0 && (a[0] as u32) == (b[0] as u32) {
        lemma_text_le_total(a.drop_first(), b.drop_first());
    }
}

/// The order is transitive.
pub proof fn lemma_text_le_transitive(a: Seq<char>, b: Seq<char>, c: Seq<char>)
    requires
        text_le(a, b),
        text_le(b, c),
    ensures
        text_le(a, c),
    decreases a.len(),
{
    if a.len() > 0 && b.len() > 0 && c.len() > 0 && (a[0] as u32) == (b[0] as u32) && (b[0] as u32)
        == (c[0] as u32) {
        lemma_text_le_transitive(a.drop_first(), b.drop_first(), c.drop_first());
    }
}

/// Whether `a` comes before, or equals, `b`.
pub fn text_le_exec(a: &str, b: &str) -> (r: bool)
    ensures
        r == text_le(a@, b@),
{
    let x = chars_of(a);
    let y = chars_of(b);
    let mut i: usize = 0;
    assert(x@.skip(0) == x@ && y@.skip(0) == y@);
    loop
        invariant
            x@ == a@,
            y@ == b@,
            i <= x@.len(),
            i <= y@.len(),
            text_le(a@, b@) == text_le(x@.skip(i as int), y@.skip(i as int)),
        decreases x@.len() - i,
    {
        let ghost xs = x@.skip(i as int);
        let ghost ys = y@.skip(i as int);
        if i == x.len() {
            return true;
        }
        if i == y.len() {
            return false;
        }
        assert(xs[0] == x@[i as int] && ys[0] == y@[i as int]);
        if (x[i] as u32) != (y[i] as u32) {
            return (x[i] as u32) < (y[i] as u32);
        }
        assert(xs.drop_first() == x@.skip(i + 1));
        assert(ys.drop_first() == y@.skip(i + 1));
        i = i + 1;
    }
}

/// The profiles stored among the files of the profiles directory: the stems
/// of the `yaml` files, sorted.
pub fn profile_names(files: &[String]) -> (r: Vec<String>)
    ensures
        sorted(views(r@)),
        views(r@).to_multiset() == yaml_stems(views(files@)).to_multiset(),
{
    broadcast use vstd::seq_lib::to_multiset_insert, vstd::seq_lib::to_multiset_build;

    let mut r: Vec<String> = Vec::new();
    let n = files.len();
    assert(views(files@.take(0)) =~= Seq::<Seq<char>>::empty());
    assert(views(r@) =~= Seq::<Seq<char>>::empty());
    for i in 0..n
        invariant
            n == files@.len(),
            sorted(views(r@)),
            views(r@).to_multiset() == yaml_stems(views(files@.take(i as int))).to_multiset(),
    {
        proof {
            assert(views(files@.take(i + 1)).drop_last() == views(files@.take(i as int)));
            assert(views(files@.take(i + 1)).last() == files@[i as int]@);
        }
        match yaml_stem_of(files[i].as_str()) {
            Some(stem) => {
                let m = r.len();
                let mut k: usize = 0;
                while k < m && text_le_exec(r[k].as_str(), stem.as_str())
                    invariant
                        m == r@.len(),
                        k <= m,
                        forall|j: int| 0 <= j < k ==> text_le(r@[j]@, stem@),
                    decreases m - k,
                {
                    k = k + 1;
                }
                let ghost before = views(r@);
                let ghost s = stem@;
                proof {
                    if k < m {
                        lemma_text_le_total(r@[k as int]@, s);
                    }
                }
                r.insert(k, stem);
                proof {
                    assert(yaml_stems(views(files@.take(i + 1))) == yaml_stems(
                        views(files@.take(i as int)),
                    ).push(s));
                    vstd::seq_lib::to_multiset_insert(before, k as int, s);
                    vstd::seq_lib::to_multiset_build(yaml_stems(views(files@.take(i as int))), s);
                    assert(views(r@) =~= before.insert(k as int, s));
                    assert forall|a: int, b: int|
                        0 <= a < b < views(r@).len() implies text_le(views(r@)[a], views(r@)[b]) by {
                        let v = views(r@);
                        if b < k {
                            assert(v[a] == before[a] && v[b] == before[b]);
                        } else if a < k && b == k {
                        } else if a < k && b > k {
                            assert(v[a] == before[a] && v[b] == before[b - 1]);
                        } else if a == k {
                            assert(v[b] == before[b - 1]);
                            if b - 1 > k {
                                lemma_text_le_transitive(s, before[k as int], before[b - 1]);
                            }
                        } else {
                            assert(v[a] == before[a - 1] && v[b] == before[b - 1]);
                        }
                    }
                }
            },
            None => {
                assert(yaml_stems(views(files@.take(i + 1))) == yaml_stems(
                    views(files@.take(i as int)),
                ));
            },
        }
    }
    assert(files@.take(n as int) == files@);
    r
}

} // verus!
