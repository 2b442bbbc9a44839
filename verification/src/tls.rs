//! TLS material: where the client's certificate, its key and the authority's
//! certificate are found.
//!
//! The places are read from text in the manner of an environment file: one
//! `NAME=VALUE` to a line. Reading the file, and loading what the paths point
//! to, is left to the caller.

use vstd::prelude::*;
use crate::text::{
    chars_of, opt_str, same_text, split, split_text, texts, trim, trimmed_range,
};

verus! {

/// One `NAME=VALUE` line.
#[derive(Debug, Clone, PartialEq, Eq)]
pub struct EnvEntry {
    pub name: String,
    pub value: String,
}

/// Where the TLS material of a connection is found.
#[derive(Debug, Clone, PartialEq, Eq)]
pub struct SslMaterial {
    pub client_cert: String,
    pub client_key: String,
    pub cert_authority: Option<String>,
}

/// TLS was required and there is no material for it.
#[derive(Debug, Clone, Copy, PartialEq, Eq)]
pub struct TlsRequired;

/// The mathematical value of an `SslMaterial`.
pub struct Material {
    pub client_cert: Seq<char>,
    pub client_key: Seq<char>,
    pub cert_authority: Option<Seq<char>>,
}

impl View for EnvEntry {
    type V = (Seq<char>, Seq<char>);

    open spec fn view(&self) -> (Seq<char>, Seq<char>) {
        (self.name@, self.value@)
    }
}

impl View for SslMaterial {
    type V = Material;

    open spec fn view(&self) -> Material {
        Material {
            client_cert: self.client_cert@,
            client_key: self.client_key@,
            cert_authority: match self.cert_authority {
                Some(path) => Some(path@),
                None => None,
            },
        }
    }
}

/// The views of a sequence of entries.
pub open spec fn entry_views(entries: Seq<EnvEntry>) -> Seq<(Seq<char>, Seq<char>)> {
    Seq::new(entries.len(), |i: int| entries[i]@)
}

/// The name under which the client certificate's path is given.
pub open spec fn client_cert_name() -> Seq<char> {
    "KAFKA_SSL_CLIENT_CERT"@
}

/// The name under which the client key's path is given.
pub open spec fn client_key_name() -> Seq<char> {
    "KAFKA_SSL_CLIENT_KEY"@
}

/// The name under which the certificate authority's path is given.
pub open spec fn cert_authority_name() -> Seq<char> {
    "KAFKA_SSL_CERT_AUTHORITY"@
}

/// The index of the first `c` in `s`; the length of `s` where it has none.
pub open spec fn find(s: Seq<char>, c: char) -> int
    decreases s.len(),
{
    if s.len() == 0 || s[0] == c {
        0
    } else {
        1 + find(s.drop_first(), c)
    }
}

/// The entry that a line stands for: the text before its first `=` as the
/// name and the text after it as the value, both trimmed. A line without `=`
/// stands for none.
pub open spec fn entry_of(line: Seq<char>) -> Option<(Seq<char>, Seq<char>)> {
    let at = find(line, '=');
    if at < line.len() {
        Some((trim(line.take(at)), trim(line.skip(at + 1))))
    } else {
        None
    }
}

/// The entries that the given lines stand for, one for each line that
/// stands for one, in the order of the lines.
pub open spec fn line_entries(lines: Seq<Seq<char>>) -> Seq<(Seq<char>, Seq<char>)>
    decreases lines.len(),
{
    if lines.len() == 0 {
        Seq::<(Seq<char>, Seq<char>)>::empty()
    } else {
        let before = line_entries(lines.drop_last());
        match entry_of(lines.last()) {
            Some(entry) => before.push(entry),
            None => before,
        }
    }
}

/// Whether no name occurs twice among `entries`.
pub open spec fn distinct_names(entries: Seq<(Seq<char>, Seq<char>)>) -> bool {
    forall|i: int, j: int| 0 <= i < j < entries.len() ==> entries[i].0 != entries[j].0
}

/// The index of the first entry called `name`; the number of entries where
/// there is none.
pub open spec fn name_index(entries: Seq<(Seq<char>, Seq<char>)>, name: Seq<char>) -> int
    decreases entries.len(),
{
    if entries.len() == 0 || entries[0].0 == name {
        0
    } else {
        1 + name_index(entries.drop_first(), name)
    }
}

/// `entries` with `entry` put in: it takes the place of the entry of its
/// name, where there is one, and stands at the end where there is none.
pub open spec fn put(entries: Seq<(Seq<char>, Seq<char>)>, entry: (Seq<char>, Seq<char>)) -> Seq<
    (Seq<char>, Seq<char>),
> {
    let at = name_index(entries, entry.0);
    if at < entries.len() {
        entries.update(at, entry)
    } else {
        entries.push(entry)
    }
}

/// The given entries put in one after the other: each name is kept once, with
/// the value that was given for it last.
pub open spec fn merged(raw: Seq<(Seq<char>, Seq<char>)>) -> Seq<(Seq<char>, Seq<char>)>
    decreases raw.len(),
{
    if raw.len() == 0 {
        Seq::<(Seq<char>, Seq<char>)>::empty()
    } else {
        put(merged(raw.drop_last()), raw.last())
    }
}

/// The entries of a text, read line by line: a later line replaces an earlier
/// one of the same name.
pub open spec fn env_of(text: Seq<char>) -> Seq<(Seq<char>, Seq<char>)> {
    merged(line_entries(split(text, '\n')))
}

/// The value given for `name`: that of the last entry of that name.
pub open spec fn value_of(entries: Seq<(Seq<char>, Seq<char>)>, name: Seq<char>) -> Option<
    Seq<char>,
>
    decreases entries.len(),
{
    if entries.len() == 0 {
        None
    } else if entries.last().0 == name {
        Some(entries.last().1)
    } else {
        value_of(entries.drop_last(), name)
    }
}

/// The TLS material that the entries give: there is some where both the
/// client certificate and the client key are named. The authority's
/// certificate may be missing.
pub open spec fn material_of(entries: Seq<(Seq<char>, Seq<char>)>) -> Option<Material> {
    match (value_of(entries, client_cert_name()), value_of(entries, client_key_name())) {
        (Some(cert), Some(key)) => Some(
            Material {
                client_cert: cert,
                client_key: key,
                cert_authority: value_of(entries, cert_authority_name()),
            },
        ),
        _ => None,
    }
}

/// The TLS material of a run whose file holds `contents` (`None` for a file
/// that could not be read): what the file gives, if anything.
pub open spec fn material_in(contents: Option<Seq<char>>) -> Option<Material> {
    match contents {
        Some(text) => material_of(env_of(text)),
        None => None,
    }
}

/// `find` gives the first index at which `c` stands.
pub proof fn lemma_find_is_first(s: Seq<char>, c: char, at: int)
    requires
        0 <= at <= s.len(),
        forall|j: int| 0 <= j < at ==> s[j] != c,
        at < s.len() ==> s[at] == c,
    ensures
        find(s, c) == at,
    decreases at,
{
    if at > 0 {
        assert(s[0] != c);
        let t = s.drop_first();
        assert forall|j: int| 0 <= j < at - 1 implies t[j] != c by {
            assert(t[j] == s[j + 1]);
        }
        lemma_find_is_first(t, c, at - 1);
    }
}

/// `name_index` gives the first index at which `name` stands.
pub proof fn lemma_name_index(entries: Seq<(Seq<char>, Seq<char>)>, name: Seq<char>)
    ensures
        0 <= name_index(entries, name) <= entries.len(),
        forall|j: int| 0 <= j < name_index(entries, name) ==> (#[trigger] entries[j]).0 != name,
        name_index(entries, name) < entries.len() ==> entries[name_index(entries, name)].0
            == name,
    decreases entries.len(),
{
    if entries.len() > 0 && entries[0].0 != name {
        let rest = entries.drop_first();
        lemma_name_index(rest, name);
        assert forall|j: int| 0 <= j < name_index(entries, name) implies (#[trigger] entries[j]).0
            != name by {
            if j > 0 {
                assert(entries[j] == rest[j - 1]);
            }
        }
    }
}

/// Among entries with distinct names, the value given for the name of an
/// entry is that entry's value.
pub proof fn lemma_value_of_entry(entries: Seq<(Seq<char>, Seq<char>)>, k: int)
    requires
        distinct_names(entries),
        0 <= k < entries.len(),
    ensures
        value_of(entries, entries[k].0) == Some(entries[k].1),
    decreases entries.len(),
{
    if k < entries.len() - 1 {
        assert(entries[k].0 != entries[entries.len() - 1].0);
        assert(entries.drop_last()[k] == entries[k]);
        lemma_value_of_entry(entries.drop_last(), k);
    }
}

/// No value is given for a name that no entry has.
pub proof fn lemma_value_of_absent(entries: Seq<(Seq<char>, Seq<char>)>, name: Seq<char>)
    requires
        forall|j: int| 0 <= j < entries.len() ==> (#[trigger] entries[j]).0 != name,
    ensures
        value_of(entries, name) is None,
    decreases entries.len(),
{
    if entries.len() > 0 {
        assert(entries[entries.len() - 1].0 != name);
        assert forall|j: int| 0 <= j < entries.drop_last().len() implies (
        #[trigger] entries.drop_last()[j]).0 != name by {
            assert(entries.drop_last()[j] == entries[j]);
        }
        lemma_value_of_absent(entries.drop_last(), name);
    }
}

/// Replacing an entry by one of the same name changes the value of no other
/// name.
pub proof fn lemma_value_of_update(
    entries: Seq<(Seq<char>, Seq<char>)>,
    at: int,
    entry: (Seq<char>, Seq<char>),
    name: Seq<char>,
)
    requires
        0 <= at < entries.len(),
        entries[at].0 == entry.0,
        name != entry.0,
    ensures
        value_of(entries.update(at, entry), name) == value_of(entries, name),
    decreases entries.len(),
{
    let changed = entries.update(at, entry);
    if at == entries.len() - 1 {
        assert(changed.drop_last() == entries.drop_last());
    } else {
        assert(changed.last() == entries.last());
        assert(changed.drop_last() == entries.drop_last().update(at, entry));
        lemma_value_of_update(entries.drop_last(), at, entry, name);
    }
}

/// Putting an entry in keeps the names distinct, gives its name its value,
/// and leaves the value of every other name as it was.
pub proof fn law_put(
    entries: Seq<(Seq<char>, Seq<char>)>,
    entry: (Seq<char>, Seq<char>),
    name: Seq<char>,
)
    requires
        distinct_names(entries),
    ensures
        distinct_names(put(entries, entry)),
        value_of(put(entries, entry), name) == if name == entry.0 {
            Some(entry.1)
        } else {
            value_of(entries, name)
        },
{
    let at = name_index(entries, entry.0);
    let after = put(entries, entry);
    lemma_name_index(entries, entry.0);
    if at < entries.len() {
        assert forall|i: int, j: int| 0 <= i < j < after.len() implies after[i].0
            != after[j].0 by {
            assert(after[i].0 == entries[i].0);
            assert(after[j].0 == entries[j].0);
        }
        if name == entry.0 {
            lemma_value_of_entry(after, at);
        } else {
            lemma_value_of_update(entries, at, entry, name);
        }
    } else {
        assert forall|i: int, j: int| 0 <= i < j < after.len() implies after[i].0
            != after[j].0 by {
            assert(after[i] == entries[i]);
            if j < entries.len() {
                assert(after[j] == entries[j]);
            }
        }
        assert(after.drop_last() == entries);
    }
}

/// Entries put in one after the other have distinct names, and each name has
/// the value that was given for it last.
pub proof fn law_merged_keeps_last(raw: Seq<(Seq<char>, Seq<char>)>, name: Seq<char>)
    ensures
        distinct_names(merged(raw)),
        value_of(merged(raw), name) == value_of(raw, name),
    decreases raw.len(),
{
    if raw.len() > 0 {
        law_merged_keeps_last(raw.drop_last(), name);
        law_put(merged(raw.drop_last()), raw.last(), name);
    }
}

/// In the entries of a text no name occurs twice, and the value of each name
/// is that of the last line that gives it.
pub proof fn law_env_keeps_last(text: Seq<char>, name: Seq<char>)
    ensures
        distinct_names(env_of(text)),
        value_of(env_of(text), name) == value_of(line_entries(split(text, '\n')), name),
{
    law_merged_keeps_last(line_entries(split(text, '\n')), name);
}

/// Reads one line as an entry.
pub fn parse_env_line(line: &str) -> (entry: Option<EnvEntry>)
    ensures
        match entry {
            Some(e) => entry_of(line@) == Some(e@),
            None => entry_of(line@) is None,
        },
{
    let chars = chars_of(line);
    let n: usize = chars.len();
    let mut at: usize = 0;
    while at < n && chars[at] != '='
        invariant
            n == chars.len(),
            at <= n,
            forall|j: int| 0 <= j < at ==> chars@[j] != '=',
        decreases n - at,
    {
        at = at + 1;
    }
    proof {
        lemma_find_is_first(chars@, '=', at as int);
    }
    if at < n {
        let name = trimmed_range(&chars, 0, at);
        let value = trimmed_range(&chars, at + 1, n);
        assert(chars@.subrange(0, at as int) == chars@.take(at as int));
        assert(chars@.subrange(at + 1, n as int) == chars@.skip(at + 1));
        Some(EnvEntry { name, value })
    } else {
        None
    }
}

/// Puts `entry` among `entries`: in place of the entry of its name, where
/// there is one, and at the end where there is none.
pub fn env_put(entries: &mut Vec<EnvEntry>, entry: EnvEntry)
    ensures
        entry_views(final(entries)@) == put(entry_views(old(entries)@), entry@),
{
    let ghost before = entry_views(entries@);
    let mut at: usize = 0;
    while at < entries.len() && !same_text(entries[at].name.as_str(), entry.name.as_str())
        invariant
            at <= entries.len(),
            before == entry_views(entries@),
            forall|j: int| 0 <= j < at ==> (#[trigger] before[j]).0 != entry@.0,
        decreases entries.len() - at,
    {
        at = at + 1;
    }
    proof {
        lemma_name_index(before, entry@.0);
        let first = name_index(before, entry@.0);
        if first < at {
            assert(before[first].0 == entry@.0);
        }
        if at < first {
            assert(before[at as int].0 != entry@.0);
        }
        assert(first == at);
    }
    let ghost put_in = entry@;
    if at < entries.len() {
        entries.set(at, entry);
        assert(entry_views(entries@) == before.update(at as int, put_in));
    } else {
        entries.push(entry);
        assert(entry_views(entries@) == before.push(put_in));
    }
}

/// Reads the entries of a text, line by line. Lines without `=` are passed
/// over, and a later line replaces an earlier one of the same name: no name
/// occurs twice in what is returned, and each has the value that the last
/// line of that name gives it.
pub fn read_env(text: &str) -> (entries: Vec<EnvEntry>)
    ensures
        entry_views(entries@) == env_of(text@),
        distinct_names(entry_views(entries@)),
        forall|name: Seq<char>|
            #[trigger] value_of(entry_views(entries@), name) == value_of(
                line_entries(split(text@, '\n')),
                name,
            ),
{
    let lines = split_text(text, '\n');
    let mut entries: Vec<EnvEntry> = Vec::new();
    let mut i: usize = 0;
    assert(texts(lines@).take(0) == Seq::<Seq<char>>::empty());
    assert(entry_views(entries@) == Seq::<(Seq<char>, Seq<char>)>::empty());
    while i < lines.len()
        invariant
            i <= lines.len(),
            entry_views(entries@) == merged(line_entries(texts(lines@).take(i as int))),
        decreases lines.len() - i,
    {
        let ghost seen = texts(lines@).take(i as int);
        let ghost next = texts(lines@).take(i + 1);
        assert(next.drop_last() == seen);
        assert(next.last() == lines@[i as int]@);
        match parse_env_line(lines[i].as_str()) {
            Some(entry) => {
                assert(line_entries(next).drop_last() == line_entries(seen));
                env_put(&mut entries, entry);
            },
            None => {},
        }
        i = i + 1;
    }
    proof {
        assert(texts(lines@).take(lines@.len() as int) == texts(lines@));
        assert forall|name: Seq<char>| #[trigger]
            value_of(entry_views(entries@), name) == value_of(
                line_entries(split(text@, '\n')),
                name,
            ) by {
            law_env_keeps_last(text@, name);
        }
        law_env_keeps_last(text@, Seq::<char>::empty());
    }
    entries
}

/// The value given for `name`: that of the last entry of that name.
pub fn env_get<'a>(entries: &'a Vec<EnvEntry>, name: &str) -> (value: Option<&'a String>)
    ensures
        match value {
            Some(v) => value_of(entry_views(entries@), name@) == Some(v@),
            None => value_of(entry_views(entries@), name@) is None,
        },
{
    let ghost all = entry_views(entries@);
    let mut i: usize = entries.len();
    assert(all.take(i as int) == all);
    while i > 0
        invariant
            i <= entries.len(),
            all == entry_views(entries@),
            value_of(all, name@) == value_of(all.take(i as int), name@),
        decreases i,
    {
        let ghost head = all.take(i as int);
        assert(head.last() == all[i - 1]);
        assert(head.drop_last() == all.take(i - 1));
        i = i - 1;
        if same_text(entries[i].name.as_str(), name) {
            return Some(&entries[i].value);
        }
    }
    None
}

/// Takes the TLS material out of the entries of an environment file.
pub fn extract_ssl_config(entries: &Vec<EnvEntry>) -> (material: Option<SslMaterial>)
    ensures
        match material {
            Some(m) => material_of(entry_views(entries@)) == Some(m@),
            None => material_of(entry_views(entries@)) is None,
        },
{
    let client_cert = match env_get(entries, "KAFKA_SSL_CLIENT_CERT") {
        Some(path) => path.clone(),
        None => {
            return None;
        },
    };
    let client_key = match env_get(entries, "KAFKA_SSL_CLIENT_KEY") {
        Some(path) => path.clone(),
        None => {
            return None;
        },
    };
    let cert_authority = match env_get(entries, "KAFKA_SSL_CERT_AUTHORITY") {
        Some(path) => Some(path.clone()),
        None => None,
    };
    Some(SslMaterial { client_cert, client_key, cert_authority })
}

/// Settles the TLS material of a run from the contents of its environment
/// file, `None` standing for a file that could not be read.
///
/// A file that cannot be read, or that does not name both the certificate and
/// the key, gives no material. That is an error only where TLS is required.
pub fn load_tls(contents: Option<&str>, required: bool) -> (outcome: Result<
    Option<SslMaterial>,
    TlsRequired,
>)
    ensures
        match outcome {
            Ok(Some(m)) => material_in(opt_str(contents)) == Some(m@),
            Ok(None) => !required && material_in(opt_str(contents)) is None,
            Err(_) => required && material_in(opt_str(contents)) is None,
        },
{
    let material = match contents {
        Some(text) => {
            let entries = read_env(text);
            extract_ssl_config(&entries)
        },
        None => None,
    };
    match material {
        Some(m) => Ok(Some(m)),
        None => if required {
            Err(TlsRequired)
        } else {
            Ok(None)
        },
    }
}

} // verus!
