use crate::cipher::{decrypted_of, encrypted_of};
use crate::error::StoreError;
use crate::json::{json_field_of, lookup};
use crate::record::{
    account_key, decrypt_result, fields_of, name_key, parse_record, secret_key, Credential,
    CredentialView,
};
use vstd::prelude::*;

verus! {

/// A repository rooted at `path`: credentials live under `path/credentials`,
/// one `<name>.cred` file each, grouped by subdirectories.
#[derive(Debug, Default)]
pub struct CredentialRepository {
    pub path: String,
}

/// One entry of a directory under the credentials directory: a file, by its
/// file name, or a group directory with its own entries.
#[derive(Debug)]
pub enum Entry {
    File(String),
    Group(String, Vec<Entry>),
}

/// The directories that `init` creates, in order: the root, made a
/// version-controlled working tree, then the credentials directory in it.
#[derive(Debug)]
pub struct InitPlan {
    pub root: String,
    pub credentials: String,
}

/// What `set` writes: the group directory to create if missing, the file, and
/// its contents.
#[derive(Debug)]
pub struct WritePlan {
    pub group_dir: String,
    pub file: String,
    pub contents: String,
}

pub open spec fn credentials_segment() -> Seq<char> {
    seq!['/', 'c', 'r', 'e', 'd', 'e', 'n', 't', 'i', 'a', 'l', 's']
}

pub open spec fn cred_suffix() -> Seq<char> {
    seq!['.', 'c', 'r', 'e', 'd']
}

/// The credentials directory of a repository rooted at `root`.
pub open spec fn credentials_dir_of(root: Seq<char>) -> Seq<char> {
    root + credentials_segment()
}

/// The file that holds the credential `name`.
pub open spec fn credential_path_of(root: Seq<char>, name: Seq<char>) -> Seq<char> {
    credentials_dir_of(root) + seq!['/'] + name + cred_suffix()
}

/// The index of the last `/` in `s`, or -1.
pub open spec fn last_slash(s: Seq<char>) -> int
    decreases s.len(),
{
    if s.len() == 0 {
        -1
    } else if s.last() == '/' {
        s.len() - 1
    } else {
        last_slash(s.drop_last())
    }
}

/// The directory part of a path: all before its last `/`.
pub open spec fn parent_of(p: Seq<char>) -> Seq<char> {
    if last_slash(p) < 0 {
        seq![]
    } else {
        p.subrange(0, last_slash(p))
    }
}

/// A file name that names a credential ends in `.cred`.
pub open spec fn is_credential_file(f: Seq<char>) -> bool {
    f.len() >= cred_suffix().len() && f.subrange(f.len() - cred_suffix().len(), f.len() as int)
        == cred_suffix()
}

/// The credential name that a `.cred` file stands for.
pub open spec fn stem_of(f: Seq<char>) -> Seq<char> {
    f.subrange(0, f.len() - cred_suffix().len())
}

/// The names that one entry contributes within group prefix `group`.
pub open spec fn entry_names(e: Entry, group: Seq<char>) -> Seq<Seq<char>>
    decreases e,
{
    match e {
        Entry::File(f) => if is_credential_file(f@) {
            seq![group + stem_of(f@)]
        } else {
            seq![]
        },
        Entry::Group(g, v) => names_of(v@, group + g@ + seq!['/']),
    }
}

/// The fully qualified names of the credentials among `entries`, depth first,
/// each group's names right where the group stands.
pub open spec fn names_of(entries: Seq<Entry>, group: Seq<char>) -> Seq<Seq<char>>
    decreases entries,
{
    if entries.len() == 0 {
        seq![]
    } else {
        names_of(entries.drop_last(), group) + entry_names(entries.last(), group)
    }
}

/// The record of credential `name`, account `username`, and `password`
/// encrypted under `key`.
pub open spec fn record_of(
    name: Seq<char>,
    username: Seq<char>,
    password: Seq<char>,
    key: Seq<char>,
) -> CredentialView {
    CredentialView { name: name, account: username, encrypted_password: encrypted_of(password, key) }
}

/// The serialized text has exactly the three fields of that record, and no
/// other: neither the password nor the passphrase is in it. Its token
/// decrypts under `key` to `password`.
pub open spec fn holds_credential(
    text: Seq<char>,
    name: Seq<char>,
    username: Seq<char>,
    password: Seq<char>,
    key: Seq<char>,
) -> bool {
    &&& forall|f: Seq<char>| #[trigger]
        json_field_of(text, f) == lookup(fields_of(record_of(name, username, password, key)), f)
    &&& decrypted_of(encrypted_of(password, key), key) == Some(password)
}

/// The strings as character sequences.
pub open spec fn string_views(v: Seq<String>) -> Seq<Seq<char>> {
    v.map_values(|s: String| s@)
}

/// Every name that an entry contributes is listed: a `.cred` file directly
/// among the entries, and any credential inside a group, at any depth, under
/// its group path.
pub proof fn lemma_entry_listed(entries: Seq<Entry>, group: Seq<char>, i: int, name: Seq<char>)
    requires
        0 <= i < entries.len(),
        entry_names(entries[i], group).contains(name),
    ensures
        names_of(entries, group).contains(name),
    decreases entries.len(),
{
    let rest = entries.drop_last();
    let tail = entry_names(entries.last(), group);
    if i == entries.len() - 1 {
        let k = choose|k: int| 0 <= k < tail.len() && tail[k] == name;
        assert((names_of(rest, group) + tail)[names_of(rest, group).len() + k] == name);
    } else {
        assert(rest[i] == entries[i]);
        lemma_entry_listed(rest, group, i, name);
        let k = choose|k: int| 0 <= k < names_of(rest, group).len() && names_of(rest, group)[k]
            == name;
        assert((names_of(rest, group) + tail)[k] == name);
    }
}

/// A credential file directly among the entries is listed under the group
/// prefix, without its `.cred` suffix.
pub proof fn lemma_file_listed(entries: Seq<Entry>, group: Seq<char>, i: int, f: String)
    requires
        0 <= i < entries.len(),
        entries[i] == Entry::File(f),
        is_credential_file(f@),
    ensures
        names_of(entries, group).contains(group + stem_of(f@)),
{
    assert(entry_names(entries[i], group)[0] == group + stem_of(f@));
    lemma_entry_listed(entries, group, i, group + stem_of(f@));
}

/// A name listed inside a group is listed among the entries that hold the
/// group.
pub proof fn lemma_group_listed(
    entries: Seq<Entry>,
    group: Seq<char>,
    i: int,
    g: String,
    inner: Vec<Entry>,
    name: Seq<char>,
)
    requires
        0 <= i < entries.len(),
        entries[i] == Entry::Group(g, inner),
        names_of(inner@, group + g@ + seq!['/']).contains(name),
    ensures
        names_of(entries, group).contains(name),
{
    lemma_entry_listed(entries, group, i, name);
}

/// The group prefix of nested groups: each group name followed by `/`.
pub open spec fn group_path(groups: Seq<Seq<char>>) -> Seq<char>
    decreases groups.len(),
{
    if groups.len() == 0 {
        seq![]
    } else {
        groups[0] + seq!['/'] + group_path(groups.drop_first())
    }
}

/// The entries of the group reached from `entries` by entering, at each
/// level, the entry at index `at[k]`, which must be a group named `groups[k]`.
pub open spec fn dir_at(entries: Seq<Entry>, groups: Seq<Seq<char>>, at: Seq<int>) -> Option<
    Seq<Entry>,
>
    decreases at.len(),
{
    if at.len() == 0 {
        if groups.len() == 0 {
            Some(entries)
        } else {
            None
        }
    } else if groups.len() == 0 || !(0 <= at[0] < entries.len()) {
        None
    } else {
        match entries[at[0]] {
            Entry::Group(g, v) => if g@ == groups[0] {
                dir_at(v@, groups.drop_first(), at.drop_first())
            } else {
                None
            },
            Entry::File(_) => None,
        }
    }
}

/// A credential file inside nested groups, at any depth, is listed under
/// the full group path: the file of credential `a/b/c` lists as `a/b/c`.
pub proof fn lemma_nested_file_listed(
    entries: Seq<Entry>,
    prefix: Seq<char>,
    groups: Seq<Seq<char>>,
    at: Seq<int>,
    j: int,
    f: String,
)
    requires
        dir_at(entries, groups, at) matches Some(d) && 0 <= j < d.len() && d[j] == Entry::File(f),
        is_credential_file(f@),
    ensures
        names_of(entries, prefix).contains(prefix + group_path(groups) + stem_of(f@)),
    decreases at.len(),
{
    if at.len() == 0 {
        assert(prefix + group_path(groups) =~= prefix);
        lemma_file_listed(entries, prefix, j, f);
    } else {
        let i = at[0];
        let rest = groups.drop_first();
        match entries[i] {
            Entry::Group(g, v) => {
                let inner = prefix + g@ + seq!['/'];
                lemma_nested_file_listed(v@, inner, rest, at.drop_first(), j, f);
                assert(inner + group_path(rest) + stem_of(f@) =~= prefix + group_path(groups)
                    + stem_of(f@));
                lemma_group_listed(entries, prefix, i, g, v, prefix + group_path(groups) + stem_of(f@));
            },
            Entry::File(_) => {},
        }
    }
}

/// Distinct names resolve to distinct files, and a name always to the same
/// file: storing a name again overwrites its record.
pub proof fn lemma_path_determines_name(root: Seq<char>, a: Seq<char>, b: Seq<char>)
    ensures
        (credential_path_of(root, a) == credential_path_of(root, b)) == (a == b),
{
    let pa = credential_path_of(root, a);
    let pb = credential_path_of(root, b);
    let pre = credentials_dir_of(root) + seq!['/'];
    if pa == pb {
        assert(pa.len() == pb.len());
        assert(a.len() == b.len());
        assert forall|j: int| 0 <= j < a.len() implies a[j] == b[j] by {
            assert(pa[pre.len() + j] == a[j]);
            assert(pb[pre.len() + j] == b[j]);
        }
        assert(a =~= b);
    }
}

/// Reading back what `set` writes gives the stored record, whose secret
/// decrypts under the passphrase to the password.
pub proof fn lemma_written_record_read_back(
    text: Seq<char>,
    name: Seq<char>,
    username: Seq<char>,
    password: Seq<char>,
    key: Seq<char>,
)
    requires
        holds_credential(text, name, username, password, key),
    ensures
        parse_record(text) == Some(record_of(name, username, password, key)),
        decrypt_result(record_of(name, username, password, key), key) == Some(password),
{
    let fs = fields_of(record_of(name, username, password, key));
    assert(name_key().len() == 4 && account_key().len() == 7 && secret_key().len() == 18);
    reveal_with_fuel(lookup, 3);
    assert(json_field_of(text, name_key()) == Some(name));
    assert(json_field_of(text, account_key()) == lookup(fs, account_key()));
    assert(json_field_of(text, account_key()) == Some(username));
    assert(json_field_of(text, secret_key()) == lookup(fs, secret_key()));
    assert(json_field_of(text, secret_key()) == Some(encrypted_of(password, key)));
}

/// Whether `f` ends in `.cred`.
fn ends_with_cred(f: &str) -> (r: bool)
    ensures
        r == is_credential_file(f@),
{
    let suffix = ".cred";
    proof {
        reveal_strlit(".cred");
    }
    let n = f.unicode_len();
    if n < 5 {
        return false;
    }
    let mut i: usize = 0;
    while i < 5
        invariant
            n == f@.len(),
            n >= 5,
            suffix@ == cred_suffix(),
            i <= 5,
            forall|j: int| 0 <= j < i ==> f@[n - 5 + j] == cred_suffix()[j],
        decreases 5 - i,
    {
        if f.get_char(n - 5 + i) != suffix.get_char(i) {
            proof {
                assert(f@.subrange(n - 5, n as int)[i as int] != cred_suffix()[i as int]);
            }
            return false;
        }
        i = i + 1;
    }
    assert(f@.subrange(n - 5, n as int) =~= cred_suffix());
    true
}

/// Appends to `out` the names of the credentials among `entries`, in group
/// prefix `group`.
fn collect_names(entries: &Vec<Entry>, group: &String, out: &mut Vec<String>)
    ensures
        string_views(final(out)@) == string_views(old(out)@) + names_of(entries@, group@),
    decreases entries,
{
    let mut i: usize = 0;
    while i < entries.len()
        invariant
            i <= entries@.len(),
            string_views(out@) == string_views(old(out)@) + names_of(
                entries@.subrange(0, i as int),
                group@,
            ),
        decreases entries@.len() - i,
    {
        let ghost before = out@;
        proof {
            assert(entries@.subrange(0, i + 1).drop_last() =~= entries@.subrange(0, i as int));
            assert(names_of(entries@.subrange(0, i + 1), group@) == names_of(
                entries@.subrange(0, i as int),
                group@,
            ) + entry_names(entries@[i as int], group@));
        }
        match &entries[i] {
            Entry::File(f) => {
                if ends_with_cred(f.as_str()) {
                    let stem = f.as_str().substring_char(0, f.unicode_len() - 5);
                    let mut name = group.clone();
                    name.append(stem);
                    out.push(name);
                    proof {
                        assert(string_views(out@) =~= string_views(before) + seq![name@]);
                    }
                } else {
                    assert(entry_names(entries@[i as int], group@) =~= seq![]);
                    assert(string_views(out@) =~= string_views(before) + seq![]);
                }
            },
            Entry::Group(g, v) => {
                let mut inner = group.clone();
                inner.append(g.as_str());
                proof {
                    reveal_strlit("/");
                }
                inner.append("/");
                assert(inner@ == group@ + g@ + seq!['/']);
                collect_names(v, &inner, out);
            },
        }
        proof {
            assert(string_views(out@) =~= string_views(before) + entry_names(entries@[i as int], group@));
            assert(string_views(out@) =~= string_views(old(out)@) + names_of(
                entries@.subrange(0, i + 1),
                group@,
            ));
        }
        i = i + 1;
    }
    assert(entries@.subrange(0, entries@.len() as int) =~= entries@);
}

/// The part of `p` before its last `/`.
fn parent_dir(p: &str) -> (r: String)
    ensures
        r@ == parent_of(p@),
{
    let n = p.unicode_len();
    let mut i: usize = n;
    assert(p@.subrange(0, n as int) =~= p@);
    while i > 0
        invariant
            i <= n,
            n == p@.len(),
            last_slash(p@) == last_slash(p@.subrange(0, i as int)),
        decreases i,
    {
        if p.get_char(i - 1) == '/' {
            assert(p@.subrange(0, i as int).last() == '/');
            return p.substring_char(0, i - 1).to_string();
        }
        assert(p@.subrange(0, i as int).drop_last() =~= p@.subrange(0, i - 1));
        i = i - 1;
    }
    assert(last_slash(p@.subrange(0, 0)) == -1);
    String::new()
}

impl CredentialRepository {
    /// The directory that holds the credentials.
    pub fn credentials_dir(&self) -> (r: String)
        ensures
            r@ == credentials_dir_of(self.path@),
    {
        proof {
            reveal_strlit("/credentials");
        }
        let mut r = self.path.clone();
        r.append("/credentials");
        r
    }

    /// The file that holds the credential `name`; the `/`-separated parts of
    /// `name` before the last are nested groups.
    pub fn credential_path(&self, name: &str) -> (r: String)
        ensures
            r@ == credential_path_of(self.path@, name@),
    {
        proof {
            reveal_strlit("/");
            reveal_strlit(".cred");
        }
        let mut r = self.credentials_dir();
        r.append("/");
        r.append(name);
        r.append(".cred");
        r
    }

    /// Fails with `NotFound` unless the root is a directory.
    pub fn check_repo(&self, root_is_dir: bool) -> (r: Result<(), StoreError>)
        ensures
            root_is_dir ==> r is Ok,
            !root_is_dir ==> r == Err::<(), StoreError>(StoreError::NotFound),
    {
        if root_is_dir {
            Ok(())
        } else {
            Err(StoreError::NotFound)
        }
    }

    /// Plans the creation of a repository at a root that is not yet there;
    /// an existing one is never initialised again.
    pub fn init(&self, root_is_dir: bool) -> (r: Result<InitPlan, StoreError>)
        ensures
            root_is_dir ==> r matches Err(StoreError::AlreadyExists),
            !root_is_dir ==> (r matches Ok(plan) && plan.root@ == self.path@
                && plan.credentials@ == credentials_dir_of(self.path@)),
    {
        if root_is_dir {
            return Err(StoreError::AlreadyExists);
        }
        Ok(InitPlan { root: self.path.clone(), credentials: self.credentials_dir() })
    }

    /// The fully qualified names of the credentials in `tree`, the entries of
    /// the credentials directory, depth first.
    pub fn list(&self, root_is_dir: bool, tree: &Vec<Entry>) -> (r: Result<Vec<String>, StoreError>)
        ensures
            !root_is_dir ==> r matches Err(StoreError::NotFound),
            root_is_dir ==> (r matches Ok(names) && string_views(names@) == names_of(
                tree@,
                seq![],
            )),
    {
        self.check_repo(root_is_dir)?;
        let mut names: Vec<String> = Vec::new();
        let top = String::new();
        collect_names(tree, &top, &mut names);
        assert(string_views(Seq::<String>::empty()) =~= seq![]);
        assert(string_views(names@) =~= names_of(tree@, seq![]));
        Ok(names)
    }

    /// The file that `get` and `set` use for `name`, once the repository is
    /// known to exist.
    pub fn locate(&self, name: &str, root_is_dir: bool) -> (r: Result<String, StoreError>)
        ensures
            !root_is_dir ==> r matches Err(StoreError::NotFound),
            root_is_dir ==> (r matches Ok(p) && p@ == credential_path_of(self.path@, name@)),
    {
        self.check_repo(root_is_dir)?;
        Ok(self.credential_path(name))
    }

    /// The credential read from `stored`, the outcome of reading its file.
    pub fn get(&self, root_is_dir: bool, stored: Result<String, StoreError>) -> (r: Result<
        Credential,
        StoreError,
    >)
        ensures
            !root_is_dir ==> r matches Err(StoreError::NotFound),
            root_is_dir ==> match stored {
                Err(e) => r == Err::<Credential, StoreError>(e),
                Ok(t) => match r {
                    Ok(c) => parse_record(t@) == Some(c@),
                    Err(e) => e == StoreError::Parse && parse_record(t@) is None,
                },
            },
    {
        self.check_repo(root_is_dir)?;
        match stored {
            Ok(t) => Credential::from_json(t.as_str()),
            Err(e) => Err(e),
        }
    }

    /// What storing the credential `name` writes: its password encrypted under
    /// `key`, in the file of `name`, after creating its group directory.
    pub fn set(
        &self,
        name: &str,
        username: &str,
        password: &str,
        key: &str,
        root_is_dir: bool,
    ) -> (r: Result<WritePlan, StoreError>)
        ensures
            !root_is_dir ==> r matches Err(StoreError::NotFound),
            root_is_dir ==> (r matches Ok(plan) && plan.file@ == credential_path_of(
                self.path@,
                name@,
            ) && plan.group_dir@ == parent_of(plan.file@) && holds_credential(
                plan.contents@,
                name@,
                username@,
                password@,
                key@,
            )),
    {
        self.check_repo(root_is_dir)?;
        let cred = Credential::from_input(name, username, password, key);
        let contents = cred.as_json();
        let file = self.credential_path(name);
        let group_dir = parent_dir(file.as_str());
        Ok(WritePlan { group_dir, file, contents })
    }
}

} // verus!
