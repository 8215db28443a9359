//! Key files, and the keys of a relay's users.

use vstd::prelude::*;
use vstd::string::StringExecFns;
use vstd::utf8;
use crate::crypto::{self, TunnelKey};
use crate::hex::{self, hex_decode, HexError};
use crate::text::{self, trim};

verus! {

/// The bytes that are read from the text of a key file.
pub open spec fn key_digits(content: Seq<char>) -> Seq<u8> {
    utf8::encode_utf8(text::trimmed(content))
}

/// Whether the text of a key file spells a key: sixty-four hexadecimal digits,
/// with or without white space around them.
pub open spec fn spells_key(content: Seq<char>) -> bool {
    hex::is_hex32(text::trimmed(content))
}

/// The key that the text of a key file spells.
pub open spec fn key_in(content: Seq<char>) -> TunnelKey {
    let b = key_digits(content);
    crypto::tunnel_key(
        Seq::new(32, |i: int| hex::pair_value(b[2 * i], b[2 * i + 1])->Some_0),
    )
}

/// Whether `e` says what is wrong with the text of a key file.
pub open spec fn is_key_error(content: Seq<char>, e: HexError) -> bool {
    let b = key_digits(content);
    match e {
        HexError::WrongLength { len } => b.len() != 64 && len == b.len(),
        HexError::InvalidDigit { position } => {
            &&& b.len() == 64
            &&& position < 64
            &&& position % 2 == 0
            &&& hex::first_bad_pair(b, position as int / 2)
        },
    }
}

/// The key in the text of a key file.
pub fn read_key(content: &str) -> (r: Result<TunnelKey, HexError>)
    ensures
        r is Ok <==> spells_key(content@),
        match r {
            Ok(key) => key == key_in(content@),
            Err(e) => is_key_error(content@, e),
        },
{
    let ghost b = key_digits(content@);
    match hex_decode(trim(content)) {
        Ok(key_bytes) => {
            proof {
                assert(key_bytes@ =~= Seq::new(
                    32,
                    |i: int| hex::pair_value(b[2 * i], b[2 * i + 1])->Some_0,
                ));
            }
            Ok(TunnelKey::from_bytes(&key_bytes))
        },
        Err(e) => Err(e),
    }
}

/// Sixty-four hexadecimal digits spell a key, and nothing of them is white space.
pub proof fn lemma_hex_digits_spell_key(content: Seq<char>)
    requires
        hex::is_hex32(content),
    ensures
        text::trimmed(content) == content,
        spells_key(content),
{
    assert(!text::is_white(content[0]) && !text::is_white(content.last()));
    text::lemma_trimmed(content);
}

/// The key that a text spells which was written for some bytes is the one made of
/// those bytes.
pub proof fn lemma_written_key_is_read(secret: Seq<u8>)
    requires
        secret.len() == 32,
    ensures
        spells_key(hex::hex_text(secret)),
        key_in(hex::hex_text(secret)) == crypto::tunnel_key(secret),
{
    let content = hex::hex_text(secret);
    hex::lemma_hex_text_is_hex(secret);
    lemma_hex_digits_spell_key(content);
    hex::lemma_hex_roundtrip(secret);
    let b = key_digits(content);
    assert(Seq::new(32, |i: int| hex::pair_value(b[2 * i], b[2 * i + 1])->Some_0) =~= secret) by {
        assert forall|i: int| 0 <= i < 32 implies hex::pair_value(
            b[2 * i],
            b[2 * i + 1],
        )->Some_0 == secret[i] by {
            assert(hex::pair_value(b[2 * i], b[2 * i + 1]) == Some(secret[i]));
        }
    }
}

/// Keys by user name. No name occurs twice.
pub struct KeyRing {
    entries: Vec<(String, TunnelKey)>,
}

/// Whether no name occurs twice.
spec fn names_differ(entries: Seq<(String, TunnelKey)>) -> bool {
    forall|i: int, j: int|
        0 <= i < j < entries.len() ==> (#[trigger] entries[i]).0@ != (#[trigger] entries[j]).0@
}

/// Whether entry number `i` is that of a name.
spec fn is_entry(entries: Seq<(String, TunnelKey)>, name: Seq<char>, i: int) -> bool {
    0 <= i < entries.len() && entries[i].0@ == name
}

spec fn entries_map(entries: Seq<(String, TunnelKey)>) -> Map<Seq<char>, TunnelKey> {
    Map::new(
        |name: Seq<char>| exists|i: int| is_entry(entries, name, i),
        |name: Seq<char>| entries[choose|i: int| is_entry(entries, name, i)].1,
    )
}

/// Whether a list holds each entry of a map, once, and nothing else.
pub open spec fn is_listing(
    entries: Seq<(String, TunnelKey)>,
    map: Map<Seq<char>, TunnelKey>,
) -> bool {
    &&& forall|i: int, j: int|
        0 <= i < j < entries.len() ==> (#[trigger] entries[i]).0@ != (#[trigger] entries[j]).0@
    &&& forall|i: int|
        0 <= i < entries.len() ==> {
            let e = #[trigger] entries[i];
            map.dom().contains(e.0@) && map[e.0@] == e.1
        }
    &&& forall|name: Seq<char>| #[trigger]
        map.dom().contains(name) ==> exists|i: int|
            0 <= i < entries.len() && (#[trigger] entries[i]).0@ == name
}

impl View for KeyRing {
    type V = Map<Seq<char>, TunnelKey>;

    closed spec fn view(&self) -> Map<Seq<char>, TunnelKey> {
        entries_map(self.entries@)
    }
}

impl KeyRing {
    #[verifier::type_invariant]
    spec fn well_formed(self) -> bool {
        names_differ(self.entries@)
    }

    /// A ring without keys.
    pub fn new() -> (ring: Self)
        ensures
            ring@ == Map::<Seq<char>, TunnelKey>::empty(),
    {
        let entries: Vec<(String, TunnelKey)> = Vec::new();
        let ring = KeyRing { entries };
        assert(ring@ =~= Map::<Seq<char>, TunnelKey>::empty());
        ring
    }

    /// The ring with a key entered under a name, in place of the one of that
    /// name.
    pub fn insert(self, name: String, key: TunnelKey) -> (ring: Self)
        ensures
            ring@ == self@.insert(name@, key),
    {
        proof {
            use_type_invariant(&self);
        }
        let ghost before = self.entries@;
        let mut entries: Vec<(String, TunnelKey)> = self.entries;
        let mut i: usize = 0;
        while i < entries.len()
            invariant
                entries@ == before,
                names_differ(before),
                0 <= i <= entries.len(),
                self@ == entries_map(before),
                forall|j: int| 0 <= j < i ==> (#[trigger] entries@[j]).0@ != name@,
            decreases entries.len() - i,
        {
            if entries[i].0 == name {
                let ghost said = name@;
                entries.set(i, (name, key));
                let ring = KeyRing { entries };
                proof {
                    assert(is_entry(ring.entries@, said, i as int));
                    assert forall|n: Seq<char>, k: int| #![trigger is_entry(before, n, k)]
                        is_entry(before, n, k) <==> is_entry(ring.entries@, n, k) by {}
                    lemma_entries_map(before, ring.entries@, said, key);
                }
                return ring;
            }
            i = i + 1;
        }
        let ghost said = name@;
        entries.push((name, key));
        let ring = KeyRing { entries };
        proof {
            assert(is_entry(ring.entries@, said, before.len() as int));
            lemma_entries_map(before, ring.entries@, said, key);
        }
        ring
    }

    /// Whether there is no key.
    pub fn is_empty(&self) -> (r: bool)
        ensures
            r == (self@ == Map::<Seq<char>, TunnelKey>::empty()),
    {
        proof {
            if self.entries@.len() > 0 {
                assert(is_entry(self.entries@, self.entries@[0].0@, 0));
                assert(self@.dom().contains(self.entries@[0].0@));
            } else {
                assert(self@ =~= Map::<Seq<char>, TunnelKey>::empty());
            }
        }
        self.entries.len() == 0
    }

    /// How many keys there are.
    pub fn len(&self) -> (n: usize)
        ensures
            n == self@.dom().len(),
    {
        proof {
            use_type_invariant(self);
            let names = self.entries@.map_values(|e: (String, TunnelKey)| e.0@);
            assert(names.no_duplicates());
            names.unique_seq_to_set();
            assert forall|name: Seq<char>| names.to_set().contains(name) == self@.dom().contains(
                name,
            ) by {
                if names.contains(name) {
                    let i = choose|i: int| 0 <= i < names.len() && names[i] == name;
                    assert(is_entry(self.entries@, name, i));
                }
                if self@.dom().contains(name) {
                    let i = choose|i: int| is_entry(self.entries@, name, i);
                    assert(names[i] == name);
                }
            }
            assert(names.to_set() =~= self@.dom());
        }
        self.entries.len()
    }

    /// The names and their keys, in no particular order.
    pub fn into_entries(self) -> (entries: Vec<(String, TunnelKey)>)
        ensures
            is_listing(entries@, self@),
    {
        proof {
            use_type_invariant(&self);
            assert forall|i: int| 0 <= i < self.entries@.len() implies {
                let e = #[trigger] self.entries@[i];
                self@.dom().contains(e.0@) && self@[e.0@] == e.1
            } by {
                let name = self.entries@[i].0@;
                assert(is_entry(self.entries@, name, i));
                let j = choose|j: int| is_entry(self.entries@, name, j);
                assert(i == j);
            }
            assert forall|name: Seq<char>| #[trigger] self@.dom().contains(name) implies exists|
                i: int,
            | 0 <= i < self.entries@.len() && (#[trigger] self.entries@[i]).0@ == name by {
                let i = choose|i: int| is_entry(self.entries@, name, i);
                assert(self.entries@[i].0@ == name);
            }
        }
        self.entries
    }
}

/// A file of the directory of keys.
pub struct KeyFile {
    /// Where it is, for messages.
    pub path: String,
    /// The extension of its name, if that is text.
    pub extension: Option<String>,
    /// Its name without the extension, if that is text.
    pub stem: Option<String>,
    /// What it holds, or why it could not be read.
    pub content: Result<String, String>,
}

/// Why the keys could not be loaded.
pub enum KeysError {
    /// The directory is none.
    NotADirectory { dir: String },
    /// A key file could not be read.
    Unreadable { path: String, reason: String },
    /// A key file does not hold a key.
    Invalid { path: String, error: HexError },
    /// There is no key file.
    NoKeys { dir: String },
}

impl KeysError {
    /// What [`KeysError::to_text`] gives.
    pub open spec fn text(self) -> Seq<char> {
        match self {
            KeysError::NotADirectory { dir } => dir@ + " is not a directory"@,
            KeysError::Unreadable { path, reason } => "failed to read "@ + path@ + ": "@ + reason@,
            KeysError::Invalid { path, error } => "invalid key in "@ + path@ + ": "@ + error.text(),
            KeysError::NoKeys { dir } => "no .key files found in "@ + dir@,
        }
    }

    /// The error in words.
    pub fn to_text(&self) -> (text: String)
        ensures
            text@ == self.text(),
    {
        match self {
            KeysError::NotADirectory { dir } => {
                let mut out = dir.clone();
                out.append(" is not a directory");
                out
            },
            KeysError::Unreadable { path, reason } => {
                let mut out = "failed to read ".to_owned();
                out.append(path.as_str());
                out.append(": ");
                out.append(reason.as_str());
                out
            },
            KeysError::Invalid { path, error } => {
                let mut out = "invalid key in ".to_owned();
                out.append(path.as_str());
                out.append(": ");
                out.append(error.to_text().as_str());
                out
            },
            KeysError::NoKeys { dir } => {
                let mut out = "no .key files found in ".to_owned();
                out.append(dir.as_str());
                out
            },
        }
    }
}

/// Whether a file of the directory of keys counts: its extension is `key`.
pub open spec fn is_key_file(file: KeyFile) -> bool {
    file.extension matches Some(e) && e@ == "key"@
}

/// Whether a file can be taken: it holds a key, or it does not count.
pub open spec fn is_usable(file: KeyFile) -> bool {
    is_key_file(file) ==> (file.content matches Ok(content) && spells_key(content@))
}

/// The name of a user, by that of the key file.
pub open spec fn user_name(file: KeyFile) -> Seq<char> {
    match file.stem {
        Some(stem) => stem@,
        None => "unknown"@,
    }
}

/// The keys of the files that count, by user name. Of two files with one user
/// name the later one stands.
pub open spec fn keys_in(files: Seq<KeyFile>) -> Map<Seq<char>, TunnelKey>
    decreases files.len(),
{
    if files.len() == 0 {
        Map::empty()
    } else if is_key_file(files.last()) {
        keys_in(files.drop_last()).insert(
            user_name(files.last()),
            key_in(files.last().content->Ok_0@),
        )
    } else {
        keys_in(files.drop_last())
    }
}

/// Whether `i` is the first file that cannot be taken.
pub open spec fn first_unusable(files: Seq<KeyFile>, i: int) -> bool {
    &&& 0 <= i < files.len()
    &&& !is_usable(files[i])
    &&& forall|j: int| 0 <= j < i ==> is_usable(#[trigger] files[j])
}

/// Whether the name of a file ends in the extension of key files.
pub fn has_key_extension(extension: &Option<String>) -> (r: bool)
    ensures
        r == (extension matches Some(e) && e@ == "key"@),
{
    match extension {
        Some(e) => *e == "key".to_owned(),
        None => false,
    }
}

/// The keys in the files of a directory, by user name.
pub fn load_keys_from_dir(dir: &str, is_dir: bool, files: &Vec<KeyFile>) -> (r: Result<
    KeyRing,
    KeysError,
>)
    ensures
        !is_dir <==> r matches Err(KeysError::NotADirectory { .. }),
        match r {
            Ok(ring) => {
                &&& forall|i: int| 0 <= i < files@.len() ==> is_usable(#[trigger] files@[i])
                &&& ring@ == keys_in(files@)
                &&& ring@ != Map::<Seq<char>, TunnelKey>::empty()
                &&& forall|name: Seq<char>, i: int| #[trigger]
                    is_last_key_of(files@, i, name) ==> ring@.dom().contains(name) && (
                    files@[i].content matches Ok(content) && ring@[name] == key_in(content@))
                &&& forall|name: Seq<char>| #[trigger]
                    ring@.dom().contains(name) ==> exists|i: int| #[trigger]
                        is_last_key_of(files@, i, name)
            },
            Err(KeysError::Unreadable { path, reason }) => exists|i: int| #[trigger]
                first_unusable(files@, i) && path@ == files@[i].path@ && (
                files@[i].content matches Err(e) && reason@ == e@),
            Err(KeysError::Invalid { path, error }) => exists|i: int| #[trigger]
                first_unusable(files@, i) && path@ == files@[i].path@ && (
                files@[i].content matches Ok(content) && is_key_error(content@, error)),
            Err(KeysError::NoKeys { dir: d }) => {
                &&& forall|i: int| 0 <= i < files@.len() ==> is_usable(#[trigger] files@[i])
                &&& keys_in(files@) == Map::<Seq<char>, TunnelKey>::empty()
                &&& forall|i: int|
                    0 <= i < files@.len() ==> !((#[trigger] files@[i]).extension matches Some(e)
                        && e@ == "key"@)
                &&& d@ == dir@
            },
            Err(KeysError::NotADirectory { dir: d }) => d@ == dir@,
        },
{
    if !is_dir {
        return Err(KeysError::NotADirectory { dir: dir.to_owned() });
    }
    let mut ring = KeyRing::new();
    let mut i: usize = 0;
    assert(files@.take(0) =~= Seq::<KeyFile>::empty());
    while i < files.len()
        invariant
            is_dir,
            0 <= i <= files.len(),
            forall|j: int| 0 <= j < i ==> is_usable(#[trigger] files@[j]),
            ring@ == keys_in(files@.take(i as int)),
        decreases files.len() - i,
    {
        let file: &KeyFile = &files[i];
        proof {
            let upto = files@.take(i + 1);
            assert(upto.drop_last() =~= files@.take(i as int));
            assert(upto.last() == files@[i as int]);
        }
        if has_key_extension(&file.extension) {
            let name: String = match &file.stem {
                Some(stem) => stem.clone(),
                None => "unknown".to_owned(),
            };
            match &file.content {
                Ok(content) => {
                    match read_key(content.as_str()) {
                        Ok(key) => {
                            ring = ring.insert(name, key);
                        },
                        Err(error) => {
                            assert(first_unusable(files@, i as int));
                            return Err(KeysError::Invalid { path: file.path.clone(), error });
                        },
                    }
                },
                Err(reason) => {
                    assert(first_unusable(files@, i as int));
                    return Err(
                        KeysError::Unreadable { path: file.path.clone(), reason: reason.clone() },
                    );
                },
            }
        }
        i = i + 1;
    }
    assert(files@.take(i as int) =~= files@);
    proof {
        lemma_no_keys_without_key_files(files@);
        assert forall|name: Seq<char>, i: int| #[trigger] is_last_key_of(files@, i, name) implies {
            &&& ring@.dom().contains(name)
            &&& files@[i].content matches Ok(content)
            &&& ring@[name] == key_in(content@)
        } by {
            lemma_last_key_file_counts(files@, name, i);
            assert(is_usable(files@[i]));
        }
        assert forall|name: Seq<char>| #[trigger] ring@.dom().contains(name) implies exists|i: int|
            #[trigger] is_last_key_of(files@, i, name) by {
            lemma_users_have_key_files(files@, name);
        }
    }
    if ring.is_empty() {
        return Err(KeysError::NoKeys { dir: dir.to_owned() });
    }
    Ok(ring)
}

proof fn lemma_entries_map(
    before: Seq<(String, TunnelKey)>,
    after: Seq<(String, TunnelKey)>,
    name: Seq<char>,
    key: TunnelKey,
)
    requires
        names_differ(before),
        names_differ(after),
        exists|i: int| is_entry(after, name, i) && (#[trigger] after[i]).1 == key,
        after.len() >= before.len(),
        forall|i: int|
            0 <= i < before.len() && (#[trigger] before[i]).0@ != name ==> after[i] == before[i],
        forall|i: int|
            0 <= i < after.len() && (#[trigger] after[i]).0@ != name ==> i < before.len()
                && after[i] == before[i],
    ensures
        entries_map(after) == entries_map(before).insert(name, key),
{
    let (a, b) = (entries_map(after), entries_map(before).insert(name, key));
    assert forall|n: Seq<char>| a.dom().contains(n) <==> b.dom().contains(n) by {
        if n != name {
            if exists|i: int| is_entry(after, n, i) {
                let i = choose|i: int| is_entry(after, n, i);
                assert(is_entry(before, n, i));
            }
            if exists|i: int| is_entry(before, n, i) {
                let i = choose|i: int| is_entry(before, n, i);
                assert(is_entry(after, n, i));
            }
        }
    }
    assert forall|n: Seq<char>| a.dom().contains(n) implies a[n] == b[n] by {
        let i = choose|i: int| is_entry(after, n, i);
        if n == name {
            let j = choose|j: int| is_entry(after, name, j) && (#[trigger] after[j]).1 == key;
            assert(after[i].0@ == after[j].0@);
            assert(i == j);
        } else {
            let j = choose|j: int| is_entry(before, n, j);
            assert(is_entry(before, n, i));
            assert(before[i].0@ == before[j].0@);
            assert(i == j);
        }
    }
    assert(a =~= b);
}

/// Whether a file is a key file of a user.
pub open spec fn is_key_of(file: KeyFile, name: Seq<char>) -> bool {
    &&& file.extension matches Some(e)
    &&& e@ == "key"@
    &&& name == match file.stem {
        Some(stem) => stem@,
        None => "unknown"@,
    }
}

/// Whether file number `i` is the last key file of a user.
pub open spec fn is_last_key_of(files: Seq<KeyFile>, i: int, name: Seq<char>) -> bool {
    &&& 0 <= i < files.len()
    &&& is_key_of(files[i], name)
    &&& forall|j: int| i < j < files.len() ==> !is_key_of(#[trigger] files[j], name)
}

proof fn lemma_last_key_without_last(files: Seq<KeyFile>, name: Seq<char>, i: int)
    requires
        files.len() > 0,
        !is_key_of(files.last(), name),
    ensures
        is_last_key_of(files.drop_last(), i, name) <==> is_last_key_of(files, i, name),
{
    let init = files.drop_last();
    if is_last_key_of(files, i, name) {
        assert forall|j: int| i < j < init.len() implies !is_key_of(#[trigger] init[j], name) by {
            assert(init[j] == files[j]);
        }
    }
    if is_last_key_of(init, i, name) {
        assert forall|j: int| i < j < files.len() implies !is_key_of(#[trigger] files[j], name) by {
            if j < init.len() {
                assert(init[j] == files[j]);
            }
        }
    }
}

/// The keys are those of the users that have a key file.
pub proof fn lemma_users_have_key_files(files: Seq<KeyFile>, name: Seq<char>)
    ensures
        keys_in(files).dom().contains(name) <==> exists|i: int| #[trigger]
            is_last_key_of(files, i, name),
    decreases files.len(),
{
    if files.len() > 0 {
        let init = files.drop_last();
        lemma_users_have_key_files(init, name);
        if is_key_of(files.last(), name) {
            assert(is_last_key_of(files, files.len() - 1, name));
        } else {
            if exists|i: int| #[trigger] is_last_key_of(init, i, name) {
                let i = choose|i: int| #[trigger] is_last_key_of(init, i, name);
                lemma_last_key_without_last(files, name, i);
            }
            if exists|i: int| #[trigger] is_last_key_of(files, i, name) {
                let i = choose|i: int| #[trigger] is_last_key_of(files, i, name);
                lemma_last_key_without_last(files, name, i);
            }
        }
    }
}

/// A user's key is the one that the text of the user's last key file spells.
pub proof fn lemma_last_key_file_counts(files: Seq<KeyFile>, name: Seq<char>, i: int)
    requires
        is_last_key_of(files, i, name),
    ensures
        keys_in(files).dom().contains(name),
        keys_in(files)[name] == key_in(files[i].content->Ok_0@),
    decreases files.len(),
{
    if i < files.len() - 1 {
        assert(!is_key_of(files[files.len() - 1], name));
        lemma_last_key_without_last(files, name, i);
        lemma_last_key_file_counts(files.drop_last(), name, i);
    }
}

/// There are no keys if and only if no file has the extension of key files.
pub proof fn lemma_no_keys_without_key_files(files: Seq<KeyFile>)
    ensures
        keys_in(files) == Map::<Seq<char>, TunnelKey>::empty() <==> forall|i: int|
            0 <= i < files.len() ==> !((#[trigger] files[i]).extension matches Some(e) && e@
                == "key"@),
    decreases files.len(),
{
    if files.len() > 0 {
        let init = files.drop_last();
        let n = files.len() - 1;
        lemma_no_keys_without_key_files(init);
        assert(forall|j: int| 0 <= j < n ==> init[j] == files[j]);
        assert(files[n] == files.last());
        if files[n].extension matches Some(e) && e@ == "key"@ {
            let name = match files[n].stem {
                Some(stem) => stem@,
                None => "unknown"@,
            };
            assert(keys_in(files).dom().contains(name));
        }
    }
}

/// The keys of two parts of a directory together are those of the first, with those
/// of the second in their place where both have one.
pub proof fn lemma_keys_of_two_parts(a: Seq<KeyFile>, b: Seq<KeyFile>)
    ensures
        keys_in(a + b) == keys_in(a).union_prefer_right(keys_in(b)),
    decreases b.len(),
{
    if b.len() == 0 {
        assert(a + b =~= a);
        assert(keys_in(a).union_prefer_right(keys_in(b)) =~= keys_in(a));
    } else {
        lemma_keys_of_two_parts(a, b.drop_last());
        assert((a + b).drop_last() =~= a + b.drop_last());
        assert((a + b).last() == b.last());
        assert(keys_in(a + b) =~= keys_in(a).union_prefer_right(keys_in(b)));
    }
}

/// Whether files have the extension of key files.
pub open spec fn with_key_extension() -> spec_fn(KeyFile) -> bool {
    |file: KeyFile| file.extension matches Some(e) && e@ == "key"@
}

/// Leaving out the files without the extension of key files changes nothing.
pub proof fn lemma_other_files_do_not_count(files: Seq<KeyFile>)
    ensures
        keys_in(files.filter(with_key_extension())) == keys_in(files),
    decreases files.len(),
{
    reveal(Seq::filter);
    if files.len() > 0 {
        let init = files.drop_last();
        lemma_other_files_do_not_count(init);
        let kept = init.filter(with_key_extension());
        if with_key_extension()(files.last()) {
            assert(kept.push(files.last()).drop_last() =~= kept);
        }
    }
}

/// A file without the extension of key files can always be taken; any other can if
/// and only if it was read and holds sixty-four hexadecimal digits, with or without
/// white space around them.
pub proof fn lemma_usable(file: KeyFile)
    ensures
        is_usable(file) <==> {
            (file.extension matches Some(e) && e@ == "key"@) ==> {
                &&& file.content matches Ok(content)
                &&& text::trimmed(content@).len() == 64
                &&& forall|i: int|
                    0 <= i < 64 ==> hex::digit_value(#[trigger] text::trimmed(content@)[i]) is Some
            }
        },
{
    if let Ok(content) = file.content {
        hex::lemma_hex32(text::trimmed(content@));
    }
}

/// The key that a text spells is made of the bytes that its digits stand for, two
/// each, the first for the high half.
pub proof fn lemma_key_is_its_digits(content: Seq<char>, secret: Seq<u8>)
    requires
        spells_key(content),
        secret.len() == 32,
        forall|i: int|
            0 <= i < 32 ==> {
                let digits = text::trimmed(content);
                #[trigger] secret[i] == 16 * hex::digit_value(digits[2 * i])->Some_0
                    + hex::digit_value(digits[2 * i + 1])->Some_0
            },
    ensures
        key_in(content) == crypto::tunnel_key(secret),
{
    let digits = text::trimmed(content);
    let b = key_digits(content);
    hex::lemma_digit_bytes(digits);
    hex::lemma_hex32(digits);
    assert(Seq::new(32, |i: int| hex::pair_value(b[2 * i], b[2 * i + 1])->Some_0) =~= secret) by {
        assert forall|i: int| 0 <= i < 32 implies hex::pair_value(
            b[2 * i],
            b[2 * i + 1],
        )->Some_0 == secret[i] by {
            assert(hex::digit_value(digits[2 * i]) is Some);
            assert(hex::digit_value(digits[2 * i + 1]) is Some);
            assert(hex::hex_value(b[2 * i]) == hex::digit_value(digits[2 * i]));
            assert(hex::hex_value(b[2 * i + 1]) == hex::digit_value(digits[2 * i + 1]));
        }
    }
}

/// White space around the digits of a key changes nothing.
pub proof fn lemma_space_around_key_does_not_count(content: Seq<char>, before: char, after: char)
    requires
        text::is_white(before),
        text::is_white(after),
    ensures
        spells_key(seq![before] + content) <==> spells_key(content),
        spells_key(content.push(after)) <==> spells_key(content),
        key_in(seq![before] + content) == key_in(content),
        key_in(content.push(after)) == key_in(content),
{
    text::lemma_space_around(content, before, after);
}

/// What is wrong with a text that spells no key is one thing: its length in bytes if
/// that is not 64, else the first pair of bytes that are not two digits.
pub proof fn lemma_one_key_error(content: Seq<char>, e: HexError, other: HexError)
    requires
        is_key_error(content, e),
    ensures
        !spells_key(content),
        is_key_error(content, other) ==> other == e,
        ({
            let b = utf8::encode_utf8(text::trimmed(content));
            match e {
                HexError::WrongLength { len } => len == b.len() && len != 64,
                HexError::InvalidDigit { position } => {
                    &&& b.len() == 64
                    &&& position < 63
                    &&& !hex::is_digit_byte(b[position as int]) || !hex::is_digit_byte(
                        b[position + 1],
                    )
                    &&& forall|k: int|
                        0 <= k < position ==> hex::is_digit_byte(#[trigger] b[k])
                },
            }
        }),
{
    let digits = text::trimmed(content);
    let b = utf8::encode_utf8(digits);
    hex::lemma_hex_pairs(digits);
    if let HexError::InvalidDigit { position } = e {
        let i = position as int / 2;
        assert(hex::pair_value(b[2 * i], b[2 * i + 1]) is None);
        assert forall|k: int| 0 <= k < position implies hex::is_digit_byte(#[trigger] b[k]) by {
            assert(hex::pair_value(b[2 * (k / 2)], b[2 * (k / 2) + 1]) is Some);
        }
        if let HexError::InvalidDigit { position: q } = other {
            if is_key_error(content, other) {
                let j = q as int / 2;
                if i < j {
                    assert(hex::pair_value(b[2 * i], b[2 * i + 1]) is Some);
                }
                if j < i {
                    assert(hex::pair_value(b[2 * j], b[2 * j + 1]) is Some);
                }
            }
        }
    }
}

/// At most one file is the first that cannot be taken, and none is if all can.
pub proof fn lemma_one_first_unusable(files: Seq<KeyFile>, i: int, j: int)
    requires
        first_unusable(files, i),
    ensures
        0 <= i < files.len(),
        !is_usable(files[i]),
        0 <= j < i ==> is_usable(files[j]),
        first_unusable(files, j) ==> j == i,
{
}

} // verus!
