use vstd::prelude::*;
use vstd::string::*;
use vstd::utf8::encode_utf8;
use crate::secret::{sha256, sha256_of};
use crate::settings::Settings;
use crate::text::{find_from, first_idx, last_idx, lemma_last_idx, rfind_last, replace_all,
    spec_starts_with, starts_with_str, spaces, str_eq, str_replace};
use crate::utils::{hex_encode, hex_of};

verus! {

/// How repository operations can fail before any network attempt.
#[derive(Debug)]
pub enum RepoError {
    /// A recipe reference without the `<path>:<version>` shape.
    MalformedName,
    /// REPOSITORY or REPOSITORY_TYPE is not configured.
    MissingRepository,
    /// REPOSITORY_TYPE is custom but no pattern is configured.
    MissingCustomPattern,
    /// REPOSITORY_TYPE outside github, bitbucket and custom; carries it.
    UnsupportedType(String),
    /// No indexed recipe has the given id or prefix; carries it.
    NotFound(String),
}

pub ghost enum RepoErrSpec {
    MalformedName,
    MissingRepository,
    MissingCustomPattern,
    UnsupportedType(Seq<char>),
    NotFound(Seq<char>),
}

impl View for RepoError {
    type V = RepoErrSpec;

    open spec fn view(&self) -> RepoErrSpec {
        match self {
            RepoError::MalformedName => RepoErrSpec::MalformedName,
            RepoError::MissingRepository => RepoErrSpec::MissingRepository,
            RepoError::MissingCustomPattern => RepoErrSpec::MissingCustomPattern,
            RepoError::UnsupportedType(s) => RepoErrSpec::UnsupportedType(s@),
            RepoError::NotFound(s) => RepoErrSpec::NotFound(s@),
        }
    }
}

impl RepoError {
    /// The error text, as shown to the user.
    pub fn message(&self) -> (r: String)
        ensures
            match self@ {
                RepoErrSpec::MalformedName => r@ == "Attr 'name' malformed. Use <path>:<version>"@,
                RepoErrSpec::MissingRepository => r@
                    == "REPOSITORY and REPOSITORY_TYPE must be set to download instructions"@,
                RepoErrSpec::MissingCustomPattern => r@
                    == "REPOSITORY_CUSTOM_PATTERN must be set when REPOSITORY_TYPE is 'custom'"@,
                RepoErrSpec::UnsupportedType(t) => r@ == "REPOSITORY_TYPE '"@ + t
                    + "' is not supported"@,
                RepoErrSpec::NotFound(t) => r@ == "Recipe '"@ + t + "' not found"@,
            },
    {
        match self {
            RepoError::MalformedName => String::from_str(
                "Attr 'name' malformed. Use <path>:<version>",
            ),
            RepoError::MissingRepository => String::from_str(
                "REPOSITORY and REPOSITORY_TYPE must be set to download instructions",
            ),
            RepoError::MissingCustomPattern => String::from_str(
                "REPOSITORY_CUSTOM_PATTERN must be set when REPOSITORY_TYPE is 'custom'",
            ),
            RepoError::UnsupportedType(t) => String::from_str("REPOSITORY_TYPE '").concat(
                t.as_str(),
            ).concat("' is not supported"),
            RepoError::NotFound(t) => String::from_str("Recipe '").concat(t.as_str()).concat(
                "' not found",
            ),
        }
    }
}

/// Whether a fetch must contact the network: always when forced, otherwise
/// only when no cached copy exists.
pub fn needs_download(force: bool, cached: bool) -> (r: bool)
    ensures
        r == (force || !cached),
{
    force || !cached
}

/// The content id of a remote recipe: SHA-256 over the remote path and the
/// version, concatenated with no separator, in lower-case hex.
pub open spec fn id_spec(remote: Seq<char>, version: Seq<char>) -> Seq<char> {
    hex_of(sha256_of(encode_utf8(remote) + encode_utf8(version)))
}

/// Law: the content id is a function of the remote path and version alone.
pub proof fn lemma_index_id_deterministic(
    r1: Seq<char>,
    v1: Seq<char>,
    r2: Seq<char>,
    v2: Seq<char>,
)
    requires
        r1 == r2,
        v1 == v2,
    ensures
        id_spec(r1, v1) == id_spec(r2, v2),
{
}

/// Computes the content id: 64 lower-case hex characters.
pub fn generate_id(remote: &str, version: &str) -> (r: String)
    ensures
        r@ == id_spec(remote@, version@),
        r@.len() == 64,
{
    let mut data = remote.as_bytes_vec();
    let mut tail = version.as_bytes_vec();
    data.append(&mut tail);
    let digest = sha256(data.as_slice());
    hex_encode(digest.as_slice())
}

/// One indexed recipe: where it came from and when it was recorded.
pub struct IndexEntry {
    pub remote: String,
    pub version: String,
    pub filename: String,
    pub datetime: String,
}

pub ghost struct IndexEntrySpec {
    pub remote: Seq<char>,
    pub version: Seq<char>,
    pub filename: Seq<char>,
    pub datetime: Seq<char>,
}

impl View for IndexEntry {
    type V = IndexEntrySpec;

    open spec fn view(&self) -> IndexEntrySpec {
        IndexEntrySpec {
            remote: self.remote@,
            version: self.version@,
            filename: self.filename@,
            datetime: self.datetime@,
        }
    }
}

pub open spec fn ientry_views(v: Seq<(String, IndexEntry)>) -> Seq<(Seq<char>, IndexEntrySpec)> {
    Seq::new(v.len(), |i: int| (v[i].0@, v[i].1@))
}

/// The position of the first entry with an id, or the count when absent.
pub open spec fn index_find(es: Seq<(Seq<char>, IndexEntrySpec)>, id: Seq<char>, from: int) -> int
    decreases es.len() - from,
    when 0 <= from
{
    if from >= es.len() {
        es.len() as int
    } else if es[from].0 == id {
        from
    } else {
        index_find(es, id, from + 1)
    }
}

pub proof fn lemma_index_find(es: Seq<(Seq<char>, IndexEntrySpec)>, id: Seq<char>, from: int)
    requires
        0 <= from <= es.len(),
    ensures
        from <= index_find(es, id, from) <= es.len(),
        index_find(es, id, from) < es.len() ==> es[index_find(es, id, from)].0 == id,
        forall|q: int| from <= q < index_find(es, id, from) ==> es[q].0 != id,
    decreases es.len() - from,
{
    if from < es.len() && es[from].0 != id {
        lemma_index_find(es, id, from + 1);
    }
}

pub open spec fn has_id(es: Seq<(Seq<char>, IndexEntrySpec)>, id: Seq<char>) -> bool {
    index_find(es, id, 0) < es.len()
}

/// The position of the first entry whose id starts with a prefix, or the
/// count when none does.
pub open spec fn prefix_find(es: Seq<(Seq<char>, IndexEntrySpec)>, p: Seq<char>, from: int) -> int
    decreases es.len() - from,
    when 0 <= from
{
    if from >= es.len() {
        es.len() as int
    } else if spec_starts_with(es[from].0, p) {
        from
    } else {
        prefix_find(es, p, from + 1)
    }
}

pub proof fn lemma_prefix_find(es: Seq<(Seq<char>, IndexEntrySpec)>, p: Seq<char>, from: int)
    requires
        0 <= from <= es.len(),
    ensures
        from <= prefix_find(es, p, from) <= es.len(),
        prefix_find(es, p, from) < es.len() ==> spec_starts_with(es[prefix_find(es, p, from)].0, p),
        forall|q: int| from <= q < prefix_find(es, p, from) ==> !spec_starts_with(es[q].0, p),
    decreases es.len() - from,
{
    if from < es.len() && !spec_starts_with(es[from].0, p) {
        lemma_prefix_find(es, p, from + 1);
    }
}

/// Replacing the entry under an existing id in place, or appending.
pub open spec fn index_upsert(
    es: Seq<(Seq<char>, IndexEntrySpec)>,
    id: Seq<char>,
    e: IndexEntrySpec,
) -> Seq<(Seq<char>, IndexEntrySpec)> {
    let i = index_find(es, id, 0);
    if i < es.len() {
        es.update(i, (id, e))
    } else {
        es.push((id, e))
    }
}

pub open spec fn is_digit_char(c: char) -> bool {
    let u = c as u32;
    48 <= u && u <= 57
}

/// The shape of a `YYYY-MM-DD HH:MM:SS` timestamp: a year of at least four
/// digits (with an explicit `+` or `-` sign when it lies outside four
/// digits), then two-digit month, day, hour, minute and second fields with
/// their separators.
pub open spec fn is_datetime_text(s: Seq<char>) -> bool {
    let n = s.len() as int;
    &&& n >= 19
    &&& forall|q: int|
        0 <= q < n - 15 ==> is_digit_char(#[trigger] s[q]) || (q == 0 && (s[q] == '-' || s[q]
            == '+'))
    &&& s[n - 15] == '-' && is_digit_char(s[n - 14]) && is_digit_char(s[n - 13])
    &&& s[n - 12] == '-' && is_digit_char(s[n - 11]) && is_digit_char(s[n - 10])
    &&& s[n - 9] == ' ' && is_digit_char(s[n - 8]) && is_digit_char(s[n - 7])
    &&& s[n - 6] == ':' && is_digit_char(s[n - 5]) && is_digit_char(s[n - 4])
    &&& s[n - 3] == ':' && is_digit_char(s[n - 2]) && is_digit_char(s[n - 1])
}

/// Relies on chrono's Local::now and its `%Y-%m-%d %H:%M:%S` formatting: the
/// current local time rendered in that shape, the year zero-padded to at
/// least four digits and written with an explicit sign (`+` from year 10000
/// on, `-` before our era); nothing is assumed of the value beyond the
/// shape.
#[verifier::external_body]
fn now_string() -> (r: String)
    ensures
        is_datetime_text(r@),
{
    chrono::Local::now().format("%Y-%m-%d %H:%M:%S").to_string()
}

/// The persistent index of pulled recipes, in insertion order: id to entry.
pub struct RecipeIndex {
    entries: Vec<(String, IndexEntry)>,
}

impl RecipeIndex {
    /// The recorded entries in order, earliest first.
    pub closed spec fn entries(&self) -> Seq<(Seq<char>, IndexEntrySpec)> {
        ientry_views(self.entries@)
    }

    /// An empty index, as a missing index file denotes.
    pub fn new() -> (r: RecipeIndex)
        ensures
            r.entries() == Seq::<(Seq<char>, IndexEntrySpec)>::empty(),
    {
        let r = RecipeIndex { entries: Vec::new() };
        proof {
            assert(r.entries() =~= Seq::<(Seq<char>, IndexEntrySpec)>::empty());
        }
        r
    }

    pub fn len(&self) -> (r: usize)
        ensures
            r == self.entries().len(),
    {
        self.entries.len()
    }

    /// The entry at a position, earliest first.
    pub fn entry_at(&self, i: usize) -> (r: (&String, &IndexEntry))
        requires
            i < self.entries().len(),
        ensures
            r.0@ == self.entries()[i as int].0,
            r.1@ == self.entries()[i as int].1,
    {
        let e = &self.entries[i];
        (&e.0, &e.1)
    }

    /// Appends one entry as read from the index file.
    pub fn add_entry(&mut self, id: &str, remote: &str, version: &str, filename: &str, datetime: &str)
        ensures
            final(self).entries() == old(self).entries().push(
                (
                    id@,
                    IndexEntrySpec {
                        remote: remote@,
                        version: version@,
                        filename: filename@,
                        datetime: datetime@,
                    },
                ),
            ),
    {
        let e = IndexEntry {
            remote: String::from_str(remote),
            version: String::from_str(version),
            filename: String::from_str(filename),
            datetime: String::from_str(datetime),
        };
        self.entries.push((String::from_str(id), e));
        proof {
            assert(self.entries() =~= old(self).entries().push(
                (
                    id@,
                    IndexEntrySpec {
                        remote: remote@,
                        version: version@,
                        filename: filename@,
                        datetime: datetime@,
                    },
                ),
            ));
        }
    }

    /// Records a pulled recipe unless it is already known and no update is
    /// forced; the timestamp is whatever the clock gave. Returns whether the
    /// index changed and must be rewritten.
    pub fn indexing(
        &mut self,
        id: &str,
        remote: &str,
        version: &str,
        filename: &str,
        update: bool,
    ) -> (r: bool)
        ensures
            r == (!has_id(old(self).entries(), id@) || update),
            !r ==> final(self).entries() == old(self).entries(),
            r ==> exists|dt: Seq<char>|
                is_datetime_text(dt) && final(self).entries() == #[trigger] index_upsert(
                    old(self).entries(),
                    id@,
                    IndexEntrySpec {
                        remote: remote@,
                        version: version@,
                        filename: filename@,
                        datetime: dt,
                    },
                ),
    {
        let ghost es = self.entries();
        let n = self.entries.len();
        let mut i: usize = 0;
        while i < n && !str_eq(self.entries[i].0.as_str(), id)
            invariant
                es == self.entries(),
                n == es.len(),
                0 <= i <= n,
                forall|q: int| 0 <= q < i ==> es[q].0 != id@,
            decreases n - i,
        {
            i += 1;
        }
        proof {
            lemma_index_find(es, id@, 0);
            let f = index_find(es, id@, 0);
            if i < n {
                assert(es[i as int].0 == id@);
                if f < i {
                    assert(es[f].0 != id@);
                }
                assert(f == i as int);
            } else {
                if f < n {
                    assert(es[f].0 == id@ && es[f].0 != id@);
                }
                assert(f == n as int);
            }
        }
        if i < n && !update {
            return false;
        }
        let now = now_string();
        let e = IndexEntry {
            remote: String::from_str(remote),
            version: String::from_str(version),
            filename: String::from_str(filename),
            datetime: now,
        };
        let ghost espec = e@;
        if i < n {
            let mut entry: (String, IndexEntry) = (
                String::new(),
                IndexEntry {
                    remote: String::new(),
                    version: String::new(),
                    filename: String::new(),
                    datetime: String::new(),
                },
            );
            core::mem::swap(&mut entry, &mut self.entries[i]);
            entry = (String::from_str(id), e);
            core::mem::swap(&mut entry, &mut self.entries[i]);
            proof {
                assert(self.entries() =~= es.update(i as int, (id@, espec)));
            }
        } else {
            self.entries.push((String::from_str(id), e));
            proof {
                assert(self.entries() =~= es.push((id@, espec)));
            }
        }
        proof {
            assert(espec == (IndexEntrySpec {
                remote: remote@,
                version: version@,
                filename: filename@,
                datetime: espec.datetime,
            }));
            assert(final(self).entries() == index_upsert(es, id@, espec));
        }
        true
    }

}

/// A reference to a remote recipe, `<path>:<version>`, together with the
/// repository settings it resolves under.
#[derive(Debug)]
pub struct Repository {
    path: String,
    version: String,
    repository: Option<String>,
    repository_type: Option<String>,
    repository_custom_pattern: Option<String>,
    storage_recipe: String,
    pub local_path: Option<String>,
}

pub ghost struct RepoSpec {
    pub path: Seq<char>,
    pub version: Seq<char>,
    pub repository: Option<Seq<char>>,
    pub repository_type: Option<Seq<char>>,
    pub repository_custom_pattern: Option<Seq<char>>,
    pub storage_recipe: Seq<char>,
    pub local_path: Option<Seq<char>>,
}

impl View for Repository {
    type V = RepoSpec;

    closed spec fn view(&self) -> RepoSpec {
        RepoSpec {
            path: self.path@,
            version: self.version@,
            repository: crate::recipe::opt_view(self.repository),
            repository_type: crate::recipe::opt_view(self.repository_type),
            repository_custom_pattern: crate::recipe::opt_view(self.repository_custom_pattern),
            storage_recipe: self.storage_recipe@,
            local_path: crate::recipe::opt_view(self.local_path),
        }
    }
}

/// The configuration check: repository and type must be set, a custom type
/// needs its pattern, and only github, bitbucket and custom are known.
pub open spec fn check_settings_spec(rs: RepoSpec) -> Option<RepoErrSpec> {
    if rs.repository is None || rs.repository_type is None {
        Option::Some(RepoErrSpec::MissingRepository)
    } else {
        let t = rs.repository_type->0;
        if t == "custom"@ {
            if rs.repository_custom_pattern is None {
                Option::Some(RepoErrSpec::MissingCustomPattern)
            } else {
                Option::None
            }
        } else if t != "github"@ && t != "bitbucket"@ {
            Option::Some(RepoErrSpec::UnsupportedType(t))
        } else {
            Option::None
        }
    }
}

/// The download URL: the scheme's pattern with repository, extension, path
/// and version substituted, in that order.
pub open spec fn url_spec(rs: RepoSpec) -> Result<Seq<char>, RepoErrSpec> {
    match check_settings_spec(rs) {
        Option::Some(e) => Result::Err(e),
        Option::None => {
            let t = rs.repository_type->0;
            let pattern = if t == "custom"@ {
                rs.repository_custom_pattern->0
            } else if t == "github"@ {
                "%(repository)s/%(version)s/%(path)s.%(ext)s"@
            } else {
                "%(repository)s/%(path)s.%(ext)s?at=%(version)s"@
            };
            Result::Ok(
                replace_all(
                    replace_all(
                        replace_all(
                            replace_all(pattern, "%(repository)s"@, rs.repository->0),
                            "%(ext)s"@,
                            "cfg"@,
                        ),
                        "%(path)s"@,
                        rs.path,
                    ),
                    "%(version)s"@,
                    rs.version,
                ),
            )
        },
    }
}

/// The filename a URL's final path segment names: everything after the last
/// slash, or the whole URL when it has none.
pub open spec fn filename_spec(u: Seq<char>) -> Seq<char> {
    u.skip(last_idx(u, '/') + 1)
}

/// What one pull resolves to before any network or disk access.
pub struct PullPlan {
    pub url: String,
    pub filename: String,
    pub id: String,
    pub target_dir: String,
    pub local_path: String,
}

impl Repository {
    /// Splits a `<path>:<version>` reference at its first colon; a reference
    /// without a colon is malformed.
    pub fn new(name: &str, settings: &Settings) -> (r: Result<Repository, RepoError>)
        ensures
            first_idx(name@, ':', 0) >= name@.len() ==> (r matches Err(e) && e is MalformedName),
            first_idx(name@, ':', 0) < name@.len() ==> (r matches Ok(rep) && rep@ == (RepoSpec {
                path: name@.take(first_idx(name@, ':', 0)),
                version: name@.skip(first_idx(name@, ':', 0) + 1),
                repository: settings@.repository,
                repository_type: settings@.repository_type,
                repository_custom_pattern: settings@.repository_custom_pattern,
                storage_recipe: settings@.storage_recipe,
                local_path: Option::None,
            })),
    {
        let n = name.unicode_len();
        let i = find_from(name, ':', 0);
        if i >= n {
            return Err(RepoError::MalformedName);
        }
        let path = String::from_str(name.substring_char(0, i));
        let version = String::from_str(name.substring_char(i + 1, n));
        proof {
            assert(path@ =~= name@.take(i as int));
            assert(version@ =~= name@.skip(i + 1));
        }
        Ok(
            Repository {
                path,
                version,
                repository: opt_copy(&settings.repository),
                repository_type: opt_copy(&settings.repository_type),
                repository_custom_pattern: opt_copy(&settings.repository_custom_pattern),
                storage_recipe: String::from_str(settings.storage_recipe.as_str()),
                local_path: None,
            },
        )
    }

    /// The configuration check, as `check_settings_spec` describes.
    fn check_settings(&self) -> (r: Result<(), RepoError>)
        ensures
            match check_settings_spec(self@) {
                Option::None => r is Ok,
                Option::Some(e) => r matches Err(err) && err@ == e,
            },
    {
        if self.repository.is_none() || self.repository_type.is_none() {
            return Err(RepoError::MissingRepository);
        }
        let rtype = match &self.repository_type {
            Some(t) => t.as_str(),
            None => "",
        };
        if str_eq(rtype, "custom") {
            if self.repository_custom_pattern.is_none() {
                return Err(RepoError::MissingCustomPattern);
            }
        } else if !str_eq(rtype, "github") && !str_eq(rtype, "bitbucket") {
            return Err(RepoError::UnsupportedType(String::from_str(rtype)));
        }
        Ok(())
    }

    /// Builds the download URL, as `url_spec` describes.
    pub fn format_url(&self) -> (r: Result<String, RepoError>)
        ensures
            match url_spec(self@) {
                Result::Ok(u) => r matches Ok(s) && s@ == u,
                Result::Err(e) => r matches Err(err) && err@ == e,
            },
    {
        match self.check_settings() {
            Err(e) => {
                return Err(e);
            },
            Ok(()) => {},
        }
        let repository = match &self.repository {
            Some(s) => s.as_str(),
            None => "",
        };
        let rtype = match &self.repository_type {
            Some(t) => t.as_str(),
            None => "",
        };
        let pattern = if str_eq(rtype, "custom") {
            match &self.repository_custom_pattern {
                Some(p) => p.as_str(),
                None => "",
            }
        } else if str_eq(rtype, "github") {
            "%(repository)s/%(version)s/%(path)s.%(ext)s"
        } else {
            "%(repository)s/%(path)s.%(ext)s?at=%(version)s"
        };
        proof {
            reveal_strlit("%(repository)s");
            reveal_strlit("%(ext)s");
            reveal_strlit("%(path)s");
            reveal_strlit("%(version)s");
            reveal_strlit("cfg");
        }
        let s1 = str_replace(pattern, "%(repository)s", repository);
        let s2 = str_replace(s1.as_str(), "%(ext)s", "cfg");
        let s3 = str_replace(s2.as_str(), "%(path)s", self.path.as_str());
        let s4 = str_replace(s3.as_str(), "%(version)s", self.version.as_str());
        Ok(s4)
    }

    /// Resolves one pull: the URL, the filename from its last path segment,
    /// the content id, and the cache location `storage/<id>/<filename>`;
    /// records the latter as the local path.
    pub fn pull(&mut self) -> (r: Result<PullPlan, RepoError>)
        ensures
            match url_spec(old(self)@) {
                Result::Err(e) => (r matches Err(err) && err@ == e) && final(self)@ == old(self)@,
                Result::Ok(u) => r matches Ok(plan) && {
                    &&& plan.url@ == u
                    &&& plan.filename@ == filename_spec(u)
                    &&& plan.id@ == id_spec(old(self)@.path, old(self)@.version)
                    &&& plan.target_dir@ == old(self)@.storage_recipe + "/"@ + plan.id@
                    &&& plan.local_path@ == plan.target_dir@ + "/"@ + plan.filename@
                    &&& final(self)@ == (RepoSpec {
                        local_path: Option::Some(plan.local_path@),
                        ..old(self)@
                    })
                },
            },
    {
        let url = match self.format_url() {
            Err(e) => {
                return Err(e);
            },
            Ok(u) => u,
        };
        let un = url.as_str().unicode_len();
        proof {
            lemma_last_idx(url@, '/');
        }
        let slash = match rfind_last(url.as_str(), '/') {
            Some(k) => k + 1,
            None => 0,
        };
        let filename = String::from_str(url.as_str().substring_char(slash, un));
        proof {
            assert(filename@ =~= filename_spec(url@));
        }
        let id = generate_id(self.path.as_str(), self.version.as_str());
        let mut target_dir = String::from_str(self.storage_recipe.as_str());
        target_dir.append("/");
        target_dir.append(id.as_str());
        let mut local = String::from_str(target_dir.as_str());
        local.append("/");
        local.append(filename.as_str());
        proof {
            reveal_strlit("/");
            assert("/"@ =~= seq!['/']);
        }
        self.local_path = Some(String::from_str(local.as_str()));
        Ok(PullPlan { url, filename, id, target_dir, local_path: local })
    }

    /// Removes the indexed recipe with the given full id, or the first whose
    /// id starts with the given prefix; an unknown id is an error. Returns
    /// the removed id.
    pub fn remove(recipe_id: &str, index: &mut RecipeIndex) -> (r: Result<String, RepoError>)
        ensures
            ({
                let es = old(index).entries();
                let rid = if recipe_id@.len() == 64 {
                    recipe_id@
                } else if prefix_find(es, recipe_id@, 0) < es.len() {
                    es[prefix_find(es, recipe_id@, 0)].0
                } else {
                    recipe_id@
                };
                let j = index_find(es, rid, 0);
                if j < es.len() {
                    r matches Ok(s) && s@ == rid && final(index).entries() == es.remove(j)
                } else {
                    (r matches Err(e) && e matches RepoError::NotFound(t) && t@ == recipe_id@)
                        && final(index).entries() == es
                }
            }),
    {
        let ghost es = index.entries();
        let n = index.entries.len();
        let mut rid = String::from_str(recipe_id);
        if recipe_id.unicode_len() != 64 {
            let mut i: usize = 0;
            while i < n && !starts_with_str(index.entries[i].0.as_str(), recipe_id)
                invariant
                    es == index.entries(),
                    n == es.len(),
                    0 <= i <= n,
                    forall|q: int| 0 <= q < i ==> !spec_starts_with(es[q].0, recipe_id@),
                decreases n - i,
            {
                i += 1;
            }
            proof {
                lemma_prefix_find(es, recipe_id@, 0);
                let f = prefix_find(es, recipe_id@, 0);
                if i < n {
                    assert(spec_starts_with(es[i as int].0, recipe_id@));
                    if f < i {
                        assert(!spec_starts_with(es[f].0, recipe_id@));
                    }
                    assert(f == i as int);
                } else {
                    if f < n {
                        assert(spec_starts_with(es[f].0, recipe_id@));
                    }
                    assert(f == n as int);
                }
            }
            if i < n {
                rid = String::from_str(index.entries[i].0.as_str());
            }
        }
        let mut j: usize = 0;
        while j < n && !str_eq(index.entries[j].0.as_str(), rid.as_str())
            invariant
                es == index.entries(),
                n == es.len(),
                0 <= j <= n,
                forall|q: int| 0 <= q < j ==> es[q].0 != rid@,
            decreases n - j,
        {
            j += 1;
        }
        proof {
            lemma_index_find(es, rid@, 0);
            let f = index_find(es, rid@, 0);
            if j < n {
                assert(es[j as int].0 == rid@);
                if f < j {
                    assert(es[f].0 != rid@);
                }
                assert(f == j as int);
            } else {
                if f < n {
                    assert(es[f].0 == rid@ && es[f].0 != rid@);
                }
                assert(f == n as int);
            }
        }
        if j < n {
            index.entries.remove(j);
            proof {
                assert(index.entries() =~= es.remove(j as int));
            }
            Ok(rid)
        } else {
            Err(RepoError::NotFound(String::from_str(recipe_id)))
        }
    }
}

/// A run of spaces of the given width (empty for a negative width).
pub open spec fn sp(n: int) -> Seq<char> {
    Seq::new(if n < 0 { 0 } else { n as nat }, |i: int| ' ')
}

pub open spec fn min_i(a: int, b: int) -> int {
    if a <= b {
        a
    } else {
        b
    }
}

/// The widest remote path among the entries, at least the column minimum.
pub open spec fn remote_max(es: Seq<(Seq<char>, IndexEntrySpec)>) -> int
    decreases es.len(),
{
    if es.len() == 0 {
        6
    } else {
        let p = remote_max(es.drop_last());
        let l = es.last().1.remote.len() as int;
        if l > p {
            l
        } else {
            p
        }
    }
}

/// The widest version among the entries, at least the column minimum.
pub open spec fn version_max(es: Seq<(Seq<char>, IndexEntrySpec)>) -> int
    decreases es.len(),
{
    if es.len() == 0 {
        7
    } else {
        let p = version_max(es.drop_last());
        let l = es.last().1.version.len() as int;
        if l > p {
            l
        } else {
            p
        }
    }
}

/// The widest filename among the entries, at least the column minimum.
pub open spec fn filename_max(es: Seq<(Seq<char>, IndexEntrySpec)>) -> int
    decreases es.len(),
{
    if es.len() == 0 {
        8
    } else {
        let p = filename_max(es.drop_last());
        let l = es.last().1.filename.len() as int;
        if l > p {
            l
        } else {
            p
        }
    }
}

/// The column widths of a listing: the longest observed value per column,
/// with fixed minimums.
pub struct LengthMeta {
    pub id: usize,
    pub remote: usize,
    pub version: usize,
    pub filename: usize,
}

impl LengthMeta {
    /// The width recorded for a column name; zero for an unknown name.
    pub fn get(&self, name: &str) -> (r: usize)
        ensures
            name@ == "remote"@ ==> r == self.remote,
            name@ == "version"@ ==> r == self.version,
            name@ == "filename"@ ==> r == self.filename,
            name@ != "remote"@ && name@ != "version"@ && name@ != "filename"@ ==> r == 0,
    {
        proof {
            reveal_strlit("remote");
            reveal_strlit("version");
            reveal_strlit("filename");
            assert("remote"@.len() == 6);
            assert("version"@.len() == 7);
            assert("filename"@.len() == 8);
        }
        if str_eq(name, "remote") {
            self.remote
        } else if str_eq(name, "version") {
            self.version
        } else if str_eq(name, "filename") {
            self.filename
        } else {
            0
        }
    }
}

/// Measures the columns over all entries, as the `*_max` functions describe.
pub fn calc_length(index: &RecipeIndex) -> (r: LengthMeta)
    ensures
        r.id == 9,
        r.remote == remote_max(index.entries()),
        r.version == version_max(index.entries()),
        r.filename == filename_max(index.entries()),
{
    let ghost es = index.entries();
    let mut meta = LengthMeta { id: 9, remote: 6, version: 7, filename: 8 };
    let n = index.len();
    let mut i: usize = 0;
    proof {
        assert(es.take(0) =~= Seq::<(Seq<char>, IndexEntrySpec)>::empty());
    }
    while i < n
        invariant
            es == index.entries(),
            n == es.len(),
            0 <= i <= n,
            meta.id == 9,
            meta.remote == remote_max(es.take(i as int)),
            meta.version == version_max(es.take(i as int)),
            meta.filename == filename_max(es.take(i as int)),
        decreases n - i,
    {
        proof {
            assert(es.take(i + 1).drop_last() =~= es.take(i as int));
            assert(es.take(i + 1).last() == es[i as int]);
        }
        let (_id, e) = index.entry_at(i);
        let rl = e.remote.as_str().unicode_len();
        if rl > meta.remote {
            meta.remote = rl;
        }
        let vl = e.version.as_str().unicode_len();
        if vl > meta.version {
            meta.version = vl;
        }
        let fl = e.filename.as_str().unicode_len();
        if fl > meta.filename {
            meta.filename = fl;
        }
        i += 1;
    }
    proof {
        assert(es.take(n as int) =~= es);
    }
    meta
}

/// One listing row: the id (possibly abbreviated), the three columns padded
/// to their widths plus the fixed gap, and the creation time.
pub open spec fn row_spec(
    id: Seq<char>,
    e: IndexEntrySpec,
    id_len: int,
    rmax: int,
    vmax: int,
    fmax: int,
    all_info: bool,
) -> Seq<char> {
    let idp = id.take(min_i(id_len, id.len() as int));
    let created = if all_info {
        e.datetime
    } else {
        e.datetime.take(min_i(19, e.datetime.len() as int))
    };
    idp + sp(id_len - idp.len()) + sp(8) + e.remote + sp(rmax - e.remote.len()) + sp(8) + e.version
        + sp(vmax - e.version.len()) + sp(8) + e.filename + sp(fmax - e.filename.len()) + sp(8)
        + created + seq!['\n']
}

pub open spec fn rows_spec(
    es: Seq<(Seq<char>, IndexEntrySpec)>,
    id_len: int,
    rmax: int,
    vmax: int,
    fmax: int,
    all_info: bool,
) -> Seq<char>
    decreases es.len(),
{
    if es.len() == 0 {
        Seq::empty()
    } else {
        rows_spec(es.drop_last(), id_len, rmax, vmax, fmax, all_info) + row_spec(
            es.last().0,
            es.last().1,
            id_len,
            rmax,
            vmax,
            fmax,
            all_info,
        )
    }
}

/// The header row above the listing.
pub open spec fn header_spec(id_len: int, rmax: int, vmax: int, fmax: int) -> Seq<char> {
    "RECIPE ID"@ + sp(id_len - 9) + sp(8) + "REMOTE"@ + sp(rmax - 6) + sp(8) + "VERSION"@ + sp(
        vmax - 7,
    ) + sp(8) + "FILENAME"@ + sp(fmax - 8) + sp(8) + "CREATED \n"@
}

/// The whole listing: header, then one row per indexed recipe in order.
pub open spec fn list_spec(es: Seq<(Seq<char>, IndexEntrySpec)>, all_info: bool) -> Seq<char> {
    let id_len: int = if all_info {
        64
    } else {
        9
    };
    header_spec(id_len, remote_max(es), version_max(es), filename_max(es)) + rows_spec(
        es,
        id_len,
        remote_max(es),
        version_max(es),
        filename_max(es),
        all_info,
    )
}

/// Renders the header row, as `header_spec` describes.
fn list_header(id_len: usize, meta: &LengthMeta) -> (r: String)
    requires
        id_len >= 9,
        meta.remote >= 6,
        meta.version >= 7,
        meta.filename >= 8,
    ensures
        r@ == header_spec(id_len as int, meta.remote as int, meta.version as int,
            meta.filename as int),
{
    let mut out = String::from_str("RECIPE ID");
    append_pad(&mut out, id_len, 9);
    out.append("REMOTE");
    append_pad(&mut out, meta.remote, 6);
    out.append("VERSION");
    append_pad(&mut out, meta.version, 7);
    out.append("FILENAME");
    append_pad(&mut out, meta.filename, 8);
    out.append("CREATED \n");
    proof {
        assert(out@ =~= header_spec(id_len as int, meta.remote as int, meta.version as int,
            meta.filename as int));
    }
    out
}

/// The recipe listing.
pub struct ListRecipes;

fn append_pad(out: &mut String, width: usize, len: usize)
    requires
        len <= width,
    ensures
        final(out)@ == old(out)@ + sp(width - len) + sp(8),
{
    let pad = spaces(width - len);
    out.append(pad.as_str());
    let gap = spaces(8);
    out.append(gap.as_str());
    proof {
        assert(pad@ =~= sp(width - len));
        assert(gap@ =~= sp(8));
        assert(old(out)@ + pad@ + gap@ =~= old(out)@ + sp(width - len) + sp(8));
    }
}

/// Appends one rendered row, as `row_spec` describes it.
#[verifier::rlimit(100)]
fn append_row(
    out: &mut String,
    id: &String,
    e: &IndexEntry,
    id_len: usize,
    meta: &LengthMeta,
    all_info: bool,
)
    requires
        e@.remote.len() <= meta.remote,
        e@.version.len() <= meta.version,
        e@.filename.len() <= meta.filename,
    ensures
        final(out)@ == old(out)@ + row_spec(
            id@,
            e@,
            id_len as int,
            meta.remote as int,
            meta.version as int,
            meta.filename as int,
            all_info,
        ),
{
    let ghost out0 = out@;
    let klen = id.as_str().unicode_len();
    let plen = if id_len < klen {
        id_len
    } else {
        klen
    };
    out.append(id.as_str().substring_char(0, plen));
    proof {
        assert(id@.subrange(0, plen as int) =~= id@.take(min_i(id_len as int, id@.len() as int)));
    }
    append_pad(out, id_len, plen);
    out.append(e.remote.as_str());
    append_pad(out, meta.remote, e.remote.as_str().unicode_len());
    out.append(e.version.as_str());
    append_pad(out, meta.version, e.version.as_str().unicode_len());
    out.append(e.filename.as_str());
    append_pad(out, meta.filename, e.filename.as_str().unicode_len());
    let dlen = e.datetime.as_str().unicode_len();
    if all_info {
        out.append(e.datetime.as_str());
    } else {
        let tlen = if 19 < dlen {
            19
        } else {
            dlen
        };
        out.append(e.datetime.as_str().substring_char(0, tlen));
        proof {
            assert(e.datetime@.subrange(0, tlen as int) =~= e@.datetime.take(
                min_i(19, e@.datetime.len() as int),
            ));
        }
    }
    out.append("\n");
    proof {
        reveal_strlit("\n");
        assert("\n"@ =~= seq!['\n']);
        assert(out@ =~= out0 + row_spec(
            id@,
            e@,
            id_len as int,
            meta.remote as int,
            meta.version as int,
            meta.filename as int,
            all_info,
        ));
    }
}

impl ListRecipes {
    /// Renders the table of indexed recipes, as `list_spec` describes:
    /// abbreviated ids and timestamps unless full detail is asked for.
    pub fn list(all_info: bool, index: &RecipeIndex) -> (r: String)
        ensures
            r@ == list_spec(index.entries(), all_info),
    {
        let ghost es = index.entries();
        let meta = calc_length(index);
        proof {
            lemma_entry_mins(es);
        }
        let id_len: usize = if all_info {
            64
        } else {
            9
        };
        let mut out = list_header(id_len, &meta);
        proof {
            assert(out@ + rows_spec(es.take(0), id_len as int, remote_max(es), version_max(es),
                filename_max(es), all_info) =~= out@);
        }
        let n = index.len();
        let ghost rmax = remote_max(es);
        let ghost vmax = version_max(es);
        let ghost fmax = filename_max(es);
        let mut i: usize = 0;
        while i < n
            invariant
                es == index.entries(),
                n == es.len(),
                0 <= i <= n,
                meta.id == 9,
                meta.remote == remote_max(es),
                meta.version == version_max(es),
                meta.filename == filename_max(es),
                rmax == remote_max(es),
                vmax == version_max(es),
                fmax == filename_max(es),
                id_len == (if all_info { 64int } else { 9int }),
                out@ == header_spec(id_len as int, rmax, vmax, fmax) + rows_spec(
                    es.take(i as int),
                    id_len as int,
                    rmax,
                    vmax,
                    fmax,
                    all_info,
                ),
            decreases n - i,
        {
            proof {
                assert(es.take(i + 1).drop_last() =~= es.take(i as int));
                assert(es.take(i + 1).last() == es[i as int]);
                lemma_entry_bounds(es, i as int);
            }
            let (id, e) = index.entry_at(i);
            append_row(&mut out, id, e, id_len, &meta, all_info);
            i += 1;
        }
        proof {
            assert(es.take(n as int) =~= es);
        }
        out
    }
}

/// Every entry's columns fit within the measured widths.
proof fn lemma_entry_bounds(es: Seq<(Seq<char>, IndexEntrySpec)>, i: int)
    requires
        0 <= i < es.len(),
    ensures
        es[i].1.remote.len() <= remote_max(es),
        es[i].1.version.len() <= version_max(es),
        es[i].1.filename.len() <= filename_max(es),
        remote_max(es) >= 6,
        version_max(es) >= 7,
        filename_max(es) >= 8,
    decreases es.len(),
{
    if i == es.len() - 1 {
        lemma_entry_mins(es.drop_last());
    } else {
        lemma_entry_bounds(es.drop_last(), i);
        assert(es.drop_last()[i] == es[i]);
    }
}

proof fn lemma_entry_mins(es: Seq<(Seq<char>, IndexEntrySpec)>)
    ensures
        remote_max(es) >= 6,
        version_max(es) >= 7,
        filename_max(es) >= 8,
    decreases es.len(),
{
    if es.len() > 0 {
        lemma_entry_mins(es.drop_last());
    }

}

fn opt_copy(o: &Option<String>) -> (r: Option<String>)
    ensures
        crate::recipe::opt_view(r) == crate::recipe::opt_view(*o),
{
    match o {
        Some(s) => Some(String::from_str(s.as_str())),
        None => None,
    }
}

} // verus!
