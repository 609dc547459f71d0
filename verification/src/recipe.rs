use vstd::prelude::*;
use vstd::string::*;
use vstd::utf8::encode_utf8;
use crate::secret::{crypto_err_of, crypto_err_text, decrypt_spec, eax_plain_max, Crypto, CryptoError,
    DecryptOut};
use crate::strmap::{insert_entries, map_of, StrMap};
use crate::text::{bracket_trim, bracket_trim_spec, find_from, first_idx, last_idx, lower_of,
    lowercase, rfind_last, split_lines, str_eq, lines_spec, trim, trim_spec};
use crate::utils::{is_url, is_url_spec};

verus! {

/// The template block of one instruction.
#[derive(Debug)]
pub struct TemplateInfo {
    pub template: String,
    pub path: Option<String>,
    pub user: Option<String>,
    pub group: Option<String>,
    pub mode: Option<String>,
}

/// The template block, over character sequences.
pub ghost struct TplSpec {
    pub template: Seq<char>,
    pub path: Option<Seq<char>>,
    pub user: Option<Seq<char>>,
    pub group: Option<Seq<char>>,
    pub mode: Option<Seq<char>>,
}

pub open spec fn opt_view(o: Option<String>) -> Option<Seq<char>> {
    match o {
        Option::None => Option::None,
        Option::Some(s) => Option::Some(s@),
    }
}

impl View for TemplateInfo {
    type V = TplSpec;

    open spec fn view(&self) -> TplSpec {
        TplSpec {
            template: self.template@,
            path: opt_view(self.path),
            user: opt_view(self.user),
            group: opt_view(self.group),
            mode: opt_view(self.mode),
        }
    }
}

/// One named unit of work: a template source, a render target and
/// variable/secret bindings.
#[derive(Debug)]
pub struct Instruction {
    pub name: String,
    pub template: TemplateInfo,
    pub variables: StrMap,
    pub secrets: StrMap,
    pub is_remote: bool,
}

/// One instruction, over character sequences; the bindings keep their order.
pub ghost struct InstrSpec {
    pub name: Seq<char>,
    pub template: TplSpec,
    pub variables: Seq<(Seq<char>, Seq<char>)>,
    pub secrets: Seq<(Seq<char>, Seq<char>)>,
    pub is_remote: bool,
}

impl View for Instruction {
    type V = InstrSpec;

    open spec fn view(&self) -> InstrSpec {
        InstrSpec {
            name: self.name@,
            template: self.template@,
            variables: self.variables.entries(),
            secrets: self.secrets.entries(),
            is_remote: self.is_remote,
        }
    }
}

/// A parsed recipe: its instructions in order of first appearance, the
/// key-comparison mode, and every raw source line.
#[derive(Debug)]
pub struct Recipe {
    pub instructions: Vec<Instruction>,
    pub case_sensitive: bool,
    pub raw_lines: Vec<String>,
}

pub ghost struct RecipeSpec {
    pub instructions: Seq<InstrSpec>,
    pub case_sensitive: bool,
    pub raw_lines: Seq<Seq<char>>,
}

pub open spec fn instr_views(v: Seq<Instruction>) -> Seq<InstrSpec> {
    Seq::new(v.len(), |i: int| v[i]@)
}

impl View for Recipe {
    type V = RecipeSpec;

    open spec fn view(&self) -> RecipeSpec {
        RecipeSpec {
            instructions: instr_views(self.instructions@),
            case_sensitive: self.case_sensitive,
            raw_lines: self.raw_lines.deep_view(),
        }
    }
}

/// How parsing a recipe can fail. Each variant carries the offending line,
/// attribute or instruction name.
#[derive(Debug)]
pub enum ParseError {
    /// A section header with no `:` separating name and part.
    MalformedSection(String),
    /// A section header whose part is not template, variables or secrets.
    UnknownPart(String),
    /// An attribute in a template block outside the supported set.
    UnsupportedAttribute(String),
    /// An instruction without a `[name:template]` section.
    MissingTemplate(String),
    /// An instruction whose `template` attribute is empty.
    EmptyTemplate(String),
    /// A remote template without the mandatory `path` attribute.
    RemoteWithoutPath(String),
}

pub ghost enum ParseErrSpec {
    MalformedSection(Seq<char>),
    UnknownPart(Seq<char>),
    UnsupportedAttribute(Seq<char>),
    MissingTemplate(Seq<char>),
    EmptyTemplate(Seq<char>),
    RemoteWithoutPath(Seq<char>),
}

impl View for ParseError {
    type V = ParseErrSpec;

    open spec fn view(&self) -> ParseErrSpec {
        match self {
            ParseError::MalformedSection(s) => ParseErrSpec::MalformedSection(s@),
            ParseError::UnknownPart(s) => ParseErrSpec::UnknownPart(s@),
            ParseError::UnsupportedAttribute(s) => ParseErrSpec::UnsupportedAttribute(s@),
            ParseError::MissingTemplate(s) => ParseErrSpec::MissingTemplate(s@),
            ParseError::EmptyTemplate(s) => ParseErrSpec::EmptyTemplate(s@),
            ParseError::RemoteWithoutPath(s) => ParseErrSpec::RemoteWithoutPath(s@),
        }
    }
}

/// The error text of each parse failure, as shown to the user.
pub open spec fn parse_err_text(e: ParseErrSpec) -> Seq<char> {
    match e {
        ParseErrSpec::MalformedSection(s) => "Malformed section '"@ + s + "'"@,
        ParseErrSpec::UnknownPart(s) => "Unsupported section '"@ + s + "'"@,
        ParseErrSpec::UnsupportedAttribute(s) => "Unsupported attribute '"@ + s + "' in recipe"@,
        ParseErrSpec::MissingTemplate(s) => "Section ["@ + s + ":template] is required"@,
        ParseErrSpec::EmptyTemplate(s) => "Attribute template is required for ["@ + s + "]"@,
        ParseErrSpec::RemoteWithoutPath(s) => "Remote template must have attribute 'path' for ["@
            + s + "]"@,
    }
}

impl ParseError {
    /// The error text, as shown to the user.
    pub fn message(&self) -> (r: String)
        ensures
            r@ == parse_err_text(self@),
    {
        match self {
            ParseError::MalformedSection(s) => String::from_str("Malformed section '").concat(
                s.as_str(),
            ).concat("'"),
            ParseError::UnknownPart(s) => String::from_str("Unsupported section '").concat(
                s.as_str(),
            ).concat("'"),
            ParseError::UnsupportedAttribute(s) => String::from_str(
                "Unsupported attribute '",
            ).concat(s.as_str()).concat("' in recipe"),
            ParseError::MissingTemplate(s) => String::from_str("Section [").concat(
                s.as_str(),
            ).concat(":template] is required"),
            ParseError::EmptyTemplate(s) => String::from_str(
                "Attribute template is required for [",
            ).concat(s.as_str()).concat("]"),
            ParseError::RemoteWithoutPath(s) => String::from_str(
                "Remote template must have attribute 'path' for [",
            ).concat(s.as_str()).concat("]"),
        }
    }
}

/// A variable or secret key as stored: lower-cased unless the recipe is
/// case-sensitive.
pub open spec fn norm_key_spec(key: Seq<char>, case_sensitive: bool) -> Seq<char> {
    if case_sensitive {
        key
    } else {
        lower_of(key)
    }
}

/// Normalizes a variable or secret key for insertion and lookup.
pub fn normalize_key(key: &str, case_sensitive: bool) -> (r: String)
    ensures
        r@ == norm_key_spec(key@, case_sensitive),
{
    if case_sensitive {
        String::from_str(key)
    } else {
        lowercase(key)
    }
}

pub ghost struct PartialSpec {
    pub template: Option<TplSpec>,
    pub variables: Seq<(Seq<char>, Seq<char>)>,
    pub secrets: Seq<(Seq<char>, Seq<char>)>,
}

pub open spec fn partial_default() -> PartialSpec {
    PartialSpec { template: Option::None, variables: Seq::empty(), secrets: Seq::empty() }
}

pub open spec fn tpl_default() -> TplSpec {
    TplSpec {
        template: Seq::empty(),
        path: Option::None,
        user: Option::None,
        group: Option::None,
        mode: Option::None,
    }
}

/// The effect of one `key = value` assignment on a partial instruction.
pub open spec fn apply_value(
    p: PartialSpec,
    part: Seq<char>,
    key: Seq<char>,
    value: Seq<char>,
    cs: bool,
) -> Result<PartialSpec, ParseErrSpec> {
    if part == "template"@ {
        let lower = lower_of(key);
        let t = match p.template {
            Option::None => tpl_default(),
            Option::Some(t) => t,
        };
        if lower == "template"@ {
            Result::Ok(PartialSpec { template: Option::Some(TplSpec { template: value, ..t }), ..p })
        } else if lower == "path"@ {
            Result::Ok(
                PartialSpec { template: Option::Some(TplSpec { path: Option::Some(value), ..t }), ..p },
            )
        } else if lower == "user"@ {
            Result::Ok(
                PartialSpec { template: Option::Some(TplSpec { user: Option::Some(value), ..t }), ..p },
            )
        } else if lower == "group"@ {
            Result::Ok(
                PartialSpec {
                    template: Option::Some(TplSpec { group: Option::Some(value), ..t }),
                    ..p
                },
            )
        } else if lower == "mode"@ {
            Result::Ok(
                PartialSpec { template: Option::Some(TplSpec { mode: Option::Some(value), ..t }), ..p },
            )
        } else {
            Result::Err(ParseErrSpec::UnsupportedAttribute(lower))
        }
    } else if part == "variables"@ {
        Result::Ok(
            PartialSpec { variables: insert_entries(p.variables, norm_key_spec(key, cs), value), ..p },
        )
    } else {
        Result::Ok(
            PartialSpec { secrets: insert_entries(p.secrets, norm_key_spec(key, cs), value), ..p },
        )
    }
}

pub ghost struct StateSpec {
    pub section: Option<(Seq<char>, Seq<char>)>,
    pub partials: Seq<(Seq<char>, PartialSpec)>,
}

/// The position of the first partial with a name, or the count when absent.
pub open spec fn find_partial(ps: Seq<(Seq<char>, PartialSpec)>, name: Seq<char>, from: int) -> int
    decreases ps.len() - from,
    when 0 <= from
{
    if from >= ps.len() {
        ps.len() as int
    } else if ps[from].0 == name {
        from
    } else {
        find_partial(ps, name, from + 1)
    }
}

pub proof fn lemma_find_partial(ps: Seq<(Seq<char>, PartialSpec)>, name: Seq<char>, from: int)
    requires
        0 <= from <= ps.len(),
    ensures
        from <= find_partial(ps, name, from) <= ps.len(),
        find_partial(ps, name, from) < ps.len() ==> ps[find_partial(ps, name, from)].0 == name,
        forall|q: int| from <= q < find_partial(ps, name, from) ==> ps[q].0 != name,
    decreases ps.len() - from,
{
    if from < ps.len() && ps[from].0 != name {
        lemma_find_partial(ps, name, from + 1);
    }
}

pub open spec fn get_partial(ps: Seq<(Seq<char>, PartialSpec)>, name: Seq<char>) -> PartialSpec {
    let i = find_partial(ps, name, 0);
    if i < ps.len() {
        ps[i].1
    } else {
        partial_default()
    }
}

pub open spec fn set_partial(
    ps: Seq<(Seq<char>, PartialSpec)>,
    name: Seq<char>,
    p: PartialSpec,
) -> Seq<(Seq<char>, PartialSpec)> {
    let i = find_partial(ps, name, 0);
    if i < ps.len() {
        ps.update(i, (name, p))
    } else {
        ps.push((name, p))
    }
}

pub open spec fn valid_part(part: Seq<char>) -> bool {
    part == "template"@ || part == "variables"@ || part == "secrets"@
}

/// The effect of one source line on the parse state.
pub open spec fn line_step(st: StateSpec, line: Seq<char>, cs: bool) -> Result<
    StateSpec,
    ParseErrSpec,
> {
    let t = trim_spec(line);
    if t.len() == 0 || t[0] == '#' || t[0] == ';' {
        Result::Ok(st)
    } else if t[0] == '[' && t.last() == ']' {
        let inner = bracket_trim_spec(t);
        let k = last_idx(inner, ':');
        if k < 0 {
            Result::Err(ParseErrSpec::MalformedSection(line))
        } else {
            let name = inner.take(k);
            let part = inner.skip(k + 1);
            if valid_part(part) {
                Result::Ok(StateSpec { section: Option::Some((name, part)), ..st })
            } else {
                Result::Err(ParseErrSpec::UnknownPart(line))
            }
        }
    } else {
        let eq = first_idx(t, '=', 0);
        if eq >= t.len() {
            Result::Ok(st)
        } else {
            match st.section {
                Option::None => Result::Ok(st),
                Option::Some(sec) => {
                    let key = trim_spec(t.take(eq));
                    let value = trim_spec(t.skip(eq + 1));
                    match apply_value(get_partial(st.partials, sec.0), sec.1, key, value, cs) {
                        Result::Err(e) => Result::Err(e),
                        Result::Ok(p) => Result::Ok(
                            StateSpec { partials: set_partial(st.partials, sec.0, p), ..st },
                        ),
                    }
                },
            }
        }
    }
}

pub open spec fn initial_state() -> StateSpec {
    StateSpec { section: Option::None, partials: Seq::empty() }
}

/// The parse state after a prefix of the lines.
pub open spec fn parse_lines(lines: Seq<Seq<char>>, cs: bool) -> Result<StateSpec, ParseErrSpec>
    decreases lines.len(),
{
    if lines.len() == 0 {
        Result::Ok(initial_state())
    } else {
        match parse_lines(lines.drop_last(), cs) {
            Result::Err(e) => Result::Err(e),
            Result::Ok(st) => line_step(st, lines.last(), cs),
        }
    }
}

/// Validation of one accumulated instruction: the template section and its
/// `template` attribute are mandatory, and a remote template needs a `path`.
pub open spec fn build_spec(name: Seq<char>, p: PartialSpec) -> Result<InstrSpec, ParseErrSpec> {
    match p.template {
        Option::None => Result::Err(ParseErrSpec::MissingTemplate(name)),
        Option::Some(t) => {
            if t.template.len() == 0 {
                Result::Err(ParseErrSpec::EmptyTemplate(name))
            } else if is_url_spec(t.template) && t.path is None {
                Result::Err(ParseErrSpec::RemoteWithoutPath(name))
            } else {
                Result::Ok(
                    InstrSpec {
                        name: name,
                        template: t,
                        variables: p.variables,
                        secrets: p.secrets,
                        is_remote: is_url_spec(t.template),
                    },
                )
            }
        },
    }
}

pub open spec fn build_all(ps: Seq<(Seq<char>, PartialSpec)>) -> Result<Seq<InstrSpec>, ParseErrSpec>
    decreases ps.len(),
{
    if ps.len() == 0 {
        Result::Ok(Seq::empty())
    } else {
        match build_all(ps.drop_last()) {
            Result::Err(e) => Result::Err(e),
            Result::Ok(s) => match build_spec(ps.last().0, ps.last().1) {
                Result::Err(e) => Result::Err(e),
                Result::Ok(i) => Result::Ok(s.push(i)),
            },
        }
    }
}

proof fn lemma_parse_lines_extend_err(lines: Seq<Seq<char>>, cs: bool, k: int)
    requires
        0 <= k <= lines.len(),
        parse_lines(lines.take(k), cs) is Err,
    ensures
        parse_lines(lines, cs) == parse_lines(lines.take(k), cs),
    decreases lines.len() - k,
{
    if k < lines.len() {
        assert(lines.take(k + 1).drop_last() =~= lines.take(k));
        lemma_parse_lines_extend_err(lines, cs, k + 1);
    } else {
        assert(lines.take(k) =~= lines);
    }
}

proof fn lemma_build_all_extend_err(ps: Seq<(Seq<char>, PartialSpec)>, k: int)
    requires
        0 <= k <= ps.len(),
        build_all(ps.take(k)) is Err,
    ensures
        build_all(ps) == build_all(ps.take(k)),
    decreases ps.len() - k,
{
    if k < ps.len() {
        assert(ps.take(k + 1).drop_last() =~= ps.take(k));
        lemma_build_all_extend_err(ps, k + 1);
    } else {
        assert(ps.take(k) =~= ps);
    }
}

/// What parsing a recipe text yields: the validated instructions in order of
/// first appearance, the case mode, and the raw lines kept verbatim.
pub open spec fn parse_spec(content: Seq<char>, cs: bool) -> Result<RecipeSpec, ParseErrSpec> {
    let lines = lines_spec(content);
    match parse_lines(lines, cs) {
        Result::Err(e) => Result::Err(e),
        Result::Ok(st) => match build_all(st.partials) {
            Result::Err(e) => Result::Err(e),
            Result::Ok(instrs) => Result::Ok(
                RecipeSpec { instructions: instrs, case_sensitive: cs, raw_lines: lines },
            ),
        },
    }
}

/// One instruction while its sections accumulate.
struct PartialInstruction {
    template: Option<TemplateInfo>,
    variables: StrMap,
    secrets: StrMap,
}

impl View for PartialInstruction {
    type V = PartialSpec;

    closed spec fn view(&self) -> PartialSpec {
        PartialSpec {
            template: match self.template {
                Option::None => Option::None,
                Option::Some(t) => Option::Some(t@),
            },
            variables: self.variables.entries(),
            secrets: self.secrets.entries(),
        }
    }
}

impl PartialInstruction {
    fn empty() -> (r: Self)
        ensures
            r@ == partial_default(),
    {
        let r = PartialInstruction {
            template: None,
            variables: StrMap::new(),
            secrets: StrMap::new(),
        };
        r
    }

    /// Records one assignment, as `apply_value` describes.
    fn add_value(&mut self, part: &str, key: &str, value: &str, case_sensitive: bool) -> (r: Result<
        (),
        ParseError,
    >)
        requires
            valid_part(part@),
        ensures
            match apply_value(old(self)@, part@, key@, value@, case_sensitive) {
                Result::Ok(p) => r is Ok && final(self)@ == p,
                Result::Err(e) => r matches Err(pe) && pe@ == e,
            },
    {
        if str_eq(part, "template") {
            let lower = lowercase(key);
            let mut slot: Option<TemplateInfo> = None;
            core::mem::swap(&mut slot, &mut self.template);
            let mut t = match slot {
                Some(t) => t,
                None => TemplateInfo {
                    template: String::new(),
                    path: None,
                    user: None,
                    group: None,
                    mode: None,
                },
            };
            if str_eq(lower.as_str(), "template") {
                t.template = String::from_str(value);
            } else if str_eq(lower.as_str(), "path") {
                t.path = Some(String::from_str(value));
            } else if str_eq(lower.as_str(), "user") {
                t.user = Some(String::from_str(value));
            } else if str_eq(lower.as_str(), "group") {
                t.group = Some(String::from_str(value));
            } else if str_eq(lower.as_str(), "mode") {
                t.mode = Some(String::from_str(value));
            } else {
                self.template = Some(t);
                return Err(ParseError::UnsupportedAttribute(lower));
            }
            self.template = Some(t);
            Ok(())
        } else if str_eq(part, "variables") {
            let k = normalize_key(key, case_sensitive);
            self.variables.insert(k.as_str(), value);
            Ok(())
        } else {
            let k = normalize_key(key, case_sensitive);
            self.secrets.insert(k.as_str(), value);
            Ok(())
        }
    }

    /// Validates the accumulated sections, as `build_spec` describes.
    fn build(self, name: String) -> (r: Result<Instruction, ParseError>)
        ensures
            match build_spec(name@, self@) {
                Result::Ok(ispec) => r matches Ok(inst) && inst@ == ispec,
                Result::Err(e) => r matches Err(pe) && pe@ == e,
            },
    {
        let template = match self.template {
            None => {
                return Err(ParseError::MissingTemplate(name));
            },
            Some(t) => t,
        };
        if template.template.as_str().unicode_len() == 0 {
            return Err(ParseError::EmptyTemplate(name));
        }
        let remote = is_url(template.template.as_str());
        if remote && template.path.is_none() {
            return Err(ParseError::RemoteWithoutPath(name));
        }
        Ok(
            Instruction {
                name,
                is_remote: remote,
                template,
                variables: self.variables,
                secrets: self.secrets,
            },
        )
    }
}

spec fn partial_views(v: Seq<(String, PartialInstruction)>) -> Seq<(Seq<char>, PartialSpec)> {
    Seq::new(v.len(), |i: int| (v[i].0@, v[i].1@))
}

pub open spec fn sec_view(c: Option<(String, String)>) -> Option<(Seq<char>, Seq<char>)> {
    match c {
        Option::None => Option::None,
        Option::Some(sec) => Option::Some((sec.0@, sec.1@)),
    }
}

/// Splits a section header's inner text at its last colon into instruction
/// name and part.
fn split_section(section: &str) -> (r: Option<(String, String)>)
    ensures
        match r {
            Option::Some(p) => last_idx(section@, ':') >= 0 && p.0@ == section@.take(
                last_idx(section@, ':'),
            ) && p.1@ == section@.skip(last_idx(section@, ':') + 1),
            Option::None => last_idx(section@, ':') < 0,
        },
{
    let n = section.unicode_len();
    match rfind_last(section, ':') {
        None => None,
        Some(k) => {
            proof {
                crate::text::lemma_last_idx(section@, ':');
            }
            let name = String::from_str(section.substring_char(0, k));
            let part = String::from_str(section.substring_char(k + 1, n));
            proof {
                assert(name@ =~= section@.take(k as int));
                assert(part@ =~= section@.skip(k + 1));
            }
            Some((name, part))
        },
    }
}

/// Parses a recipe text under the given key-comparison mode, exactly as
/// `parse_spec` describes: malformed headers and unknown parts or attributes
/// are rejected where they stand, and the assembled instructions are
/// validated at the end.
pub fn parse(content: &str, case_sensitive: bool) -> (r: Result<Recipe, ParseError>)
    ensures
        match parse_spec(content@, case_sensitive) {
            Result::Ok(rs) => r matches Ok(rec) && rec@ == rs,
            Result::Err(e) => r matches Err(pe) && pe@ == e,
        },
{
    let raw_lines = split_lines(content);
    let ghost lines = lines_spec(content@);
    let mut current: Option<(String, String)> = None;
    let mut partials: Vec<(String, PartialInstruction)> = Vec::new();
    let mut li: usize = 0;
    proof {
        assert(lines.take(0) =~= Seq::<Seq<char>>::empty());
        assert(partial_views(partials@) =~= Seq::<(Seq<char>, PartialSpec)>::empty());
    }
    while li < raw_lines.len()
        invariant
            lines == lines_spec(content@),
            raw_lines.deep_view() == lines,
            0 <= li <= raw_lines@.len(),
            raw_lines@.len() == lines.len(),
            parse_lines(lines.take(li as int), case_sensitive) matches Ok(st) && st
                == (StateSpec { section: sec_view(current), partials: partial_views(partials@) }),
            current matches Some(sec) ==> valid_part(sec.1@),
        decreases raw_lines@.len() - li,
    {
        let ghost st0 = StateSpec { section: sec_view(current), partials: partial_views(partials@) };
        proof {
            assert(lines.take(li + 1).drop_last() =~= lines.take(li as int));
            assert(lines.take(li + 1).last() == lines[li as int]);
            assert(raw_lines.deep_view()[li as int] == raw_lines@[li as int]@);
        }
        let line = &raw_lines[li];
        let t = trim(line.as_str());
        let tn = t.unicode_len();
        if tn == 0 || t.get_char(0) == '#' || t.get_char(0) == ';' {
            // blank line or comment
        } else if t.get_char(0) == '[' && t.get_char(tn - 1) == ']' {
            let inner = bracket_trim(t);
            match split_section(inner) {
                None => {
                    proof {
                        lemma_parse_lines_extend_err(lines, case_sensitive, li + 1);
                    }
                    return Err(ParseError::MalformedSection(String::from_str(line.as_str())));
                },
                Some(np) => {
                    let is_valid = str_eq(np.1.as_str(), "template") || str_eq(
                        np.1.as_str(),
                        "variables",
                    ) || str_eq(np.1.as_str(), "secrets");
                    if is_valid {
                        current = Some(np);
                    } else {
                        proof {
                            lemma_parse_lines_extend_err(lines, case_sensitive, li + 1);
                        }
                        return Err(ParseError::UnknownPart(String::from_str(line.as_str())));
                    }
                },
            }
        } else {
            let eq = find_from(t, '=', 0);
            if eq < tn {
                if current.is_some() {
                    let key = trim(t.substring_char(0, eq));
                    let value = trim(t.substring_char(eq + 1, tn));
                    proof {
                        assert(t@.subrange(0, eq as int) =~= trim_spec(line@).take(eq as int));
                        assert(t@.subrange(eq + 1, tn as int) =~= trim_spec(line@).skip(eq + 1));
                    }
                    let (sec_name, sec_part) = match &current {
                        Some(sec) => (sec.0.as_str(), sec.1.as_str()),
                        None => ("", ""),
                    };
                    let ghost ps = partial_views(partials@);
                    let n_parts = partials.len();
                    let mut pi: usize = 0;
                    while pi < n_parts && !str_eq_at(&partials, pi, sec_name)
                        invariant
                            ps == partial_views(partials@),
                            n_parts == partials@.len(),
                            0 <= pi <= n_parts,
                            forall|q: int| 0 <= q < pi ==> ps[q].0 != sec_name@,
                        decreases n_parts - pi,
                    {
                        pi += 1;
                    }
                    proof {
                        lemma_find_partial(ps, sec_name@, 0);
                        let f = find_partial(ps, sec_name@, 0);
                        if pi < n_parts {
                            assert(ps[pi as int].0 == sec_name@);
                            if f < pi {
                                assert(ps[f].0 != sec_name@);
                            }
                            assert(f == pi as int);
                        } else {
                            if f < n_parts {
                                assert(ps[f].0 == sec_name@ && ps[f].0 != sec_name@);
                            }
                            assert(f == n_parts as int);
                        }
                    }
                    if pi < n_parts {
                        let mut entry: (String, PartialInstruction) = (
                            String::new(),
                            PartialInstruction::empty(),
                        );
                        core::mem::swap(&mut entry, &mut partials[pi]);
                        proof {
                            assert(entry.0@ == ps[pi as int].0 && entry.1@ == ps[pi as int].1);
                            assert(get_partial(ps, sec_name@) == ps[pi as int].1);
                        }
                        let step = entry.1.add_value(sec_part, key, value, case_sensitive);
                        match step {
                            Err(e) => {
                                proof {
                                    lemma_parse_lines_extend_err(lines, case_sensitive, li + 1);
                                }
                                return Err(e);
                            },
                            Ok(()) => {},
                        }
                        let ghost newp = entry.1@;
                        core::mem::swap(&mut entry, &mut partials[pi]);
                        proof {
                            assert(partial_views(partials@) =~= ps.update(
                                pi as int,
                                (sec_name@, newp),
                            ));
                            assert(set_partial(ps, sec_name@, newp) == ps.update(
                                pi as int,
                                (sec_name@, newp),
                            ));
                        }
                    } else {
                        proof {
                            assert(get_partial(ps, sec_name@) == partial_default());
                        }
                        let mut p = PartialInstruction::empty();
                        let step = p.add_value(sec_part, key, value, case_sensitive);
                        match step {
                            Err(e) => {
                                proof {
                                    lemma_parse_lines_extend_err(lines, case_sensitive, li + 1);
                                }
                                return Err(e);
                            },
                            Ok(()) => {},
                        }
                        partials.push((String::from_str(sec_name), p));
                        proof {
                            assert(partial_views(partials@) =~= ps.push((sec_name@, p@)));
                            assert(set_partial(ps, sec_name@, p@) == ps.push((sec_name@, p@)));
                        }
                    }
                }
            }
        }
        li += 1;
    }
    proof {
        assert(lines.take(lines.len() as int) =~= lines);
    }
    // assemble and validate the instructions in order of first appearance
    let ghost all_parts = partial_views(partials@);
    let mut instructions: Vec<Instruction> = Vec::new();
    let mut bi: usize = 0;
    let np = partials.len();
    proof {
        assert(all_parts.take(0) =~= Seq::<(Seq<char>, PartialSpec)>::empty());
        assert(instr_views(instructions@) =~= Seq::<InstrSpec>::empty());
    }
    while bi < np
        invariant
            lines == lines_spec(content@),
            parse_lines(lines, case_sensitive) matches Ok(st) && st.partials == all_parts,
            np == partials@.len(),
            all_parts.len() == np,
            forall|q: int| bi <= q < np ==> partial_views(partials@)[q] == all_parts[q],
            0 <= bi <= np,
            build_all(all_parts.take(bi as int)) matches Ok(s) && s == instr_views(instructions@),
        decreases np - bi,
    {
        proof {
            assert(all_parts.take(bi + 1).drop_last() =~= all_parts.take(bi as int));
            assert(all_parts.take(bi + 1).last() == all_parts[bi as int]);
        }
        let mut entry: (String, PartialInstruction) = (String::new(), PartialInstruction::empty());
        core::mem::swap(&mut entry, &mut partials[bi]);
        let ghost prev = instructions@;
        let (name, partial) = entry;
        proof {
            assert(name@ == all_parts[bi as int].0 && partial@ == all_parts[bi as int].1);
        }
        match partial.build(name) {
            Err(e) => {
                proof {
                    lemma_build_all_extend_err(all_parts, bi + 1);
                }
                return Err(e);
            },
            Ok(inst) => {
                instructions.push(inst);
                proof {
                    assert(instr_views(instructions@) =~= instr_views(prev).push(inst@));
                }
            },
        }
        bi += 1;
    }
    proof {
        assert(all_parts.take(np as int) =~= all_parts);
    }
    let rec = Recipe { instructions, case_sensitive, raw_lines };
    Ok(rec)
}

/// The plaintext an envelope decrypts to, where it decrypts at all.
pub open spec fn plain_of_decrypt(key: Seq<u8>, env: Seq<char>) -> Seq<char> {
    match decrypt_spec(key, env) {
        DecryptOut::Plain(s) => s,
        _ => Seq::empty(),
    }
}

pub open spec fn all_secrets_ok(secrets: Seq<(Seq<char>, Seq<char>)>, key: Seq<u8>) -> bool {
    forall|j: int| 0 <= j < secrets.len() ==> decrypt_spec(key, secrets[j].1) is Plain
}

/// The variable bindings after the decrypted secrets are merged in, entry by
/// entry, later entries winning.
pub open spec fn vars_with_secrets(
    vars: Seq<(Seq<char>, Seq<char>)>,
    secrets: Seq<(Seq<char>, Seq<char>)>,
    key: Seq<u8>,
    cs: bool,
) -> Seq<(Seq<char>, Seq<char>)>
    decreases secrets.len(),
{
    if secrets.len() == 0 {
        vars
    } else {
        insert_entries(
            vars_with_secrets(vars, secrets.drop_last(), key, cs),
            norm_key_spec(secrets.last().0, cs),
            plain_of_decrypt(key, secrets.last().1),
        )
    }
}

/// Decrypts every secret of every instruction into its variables, in binding
/// order; the first failing envelope aborts with its error.
pub fn decrypt_secrets(
    instructions: &mut Vec<Instruction>,
    crypto: &Crypto,
    case_sensitive: bool,
) -> (r: Result<(), CryptoError>)
    ensures
        final(instructions)@.len() == old(instructions)@.len(),
        r is Ok <==> (forall|i: int|
            0 <= i < old(instructions)@.len() ==> all_secrets_ok(
                #[trigger] old(instructions)@[i]@.secrets,
                crypto@,
            )),
        r is Ok ==> (forall|i: int|
            0 <= i < old(instructions)@.len() ==> #[trigger] final(instructions)@[i]@
                == (InstrSpec {
                variables: vars_with_secrets(
                    old(instructions)@[i]@.variables,
                    old(instructions)@[i]@.secrets,
                    crypto@,
                    case_sensitive,
                ),
                ..old(instructions)@[i]@
            })),
        r matches Err(e) ==> (exists|k: int, j: int|
            {
                &&& 0 <= k < old(instructions)@.len()
                &&& 0 <= j < old(instructions)@[k]@.secrets.len()
                &&& !(decrypt_spec(crypto@, #[trigger] old(instructions)@[k]@.secrets[j].1)
                    is Plain)
                &&& crypto_err_of(decrypt_spec(crypto@, old(instructions)@[k]@.secrets[j].1)) == e
                &&& forall|q: int|
                    0 <= q < k ==> all_secrets_ok(#[trigger] old(instructions)@[q]@.secrets, crypto@)
                &&& forall|q: int|
                    0 <= q < j ==> decrypt_spec(
                        crypto@,
                        #[trigger] old(instructions)@[k]@.secrets[q].1,
                    ) is Plain
                &&& forall|q: int|
                    k < q < old(instructions)@.len() ==> #[trigger] final(instructions)@[q]
                        == old(instructions)@[q]
                &&& forall|q: int|
                    0 <= q < k ==> #[trigger] final(instructions)@[q]@ == (InstrSpec {
                        variables: vars_with_secrets(
                            old(instructions)@[q]@.variables,
                            old(instructions)@[q]@.secrets,
                            crypto@,
                            case_sensitive,
                        ),
                        ..old(instructions)@[q]@
                    })
                &&& final(instructions)@[k]@ == (InstrSpec {
                    variables: vars_with_secrets(
                        old(instructions)@[k]@.variables,
                        old(instructions)@[k]@.secrets.take(j),
                        crypto@,
                        case_sensitive,
                    ),
                    ..old(instructions)@[k]@
                })
            }),
{
    let ghost orig = instructions@;
    let n = instructions.len();
    let mut i: usize = 0;
    while i < n
        invariant
            orig == old(instructions)@,
            n == instructions@.len() == orig.len(),
            0 <= i <= n,
            forall|q: int| i <= q < n ==> instructions@[q] == orig[q],
            forall|q: int| 0 <= q < i ==> all_secrets_ok(#[trigger] orig[q]@.secrets, crypto@),
            forall|q: int|
                0 <= q < i ==> #[trigger] instructions@[q]@ == (InstrSpec {
                    variables: vars_with_secrets(
                        orig[q]@.variables,
                        orig[q]@.secrets,
                        crypto@,
                        case_sensitive,
                    ),
                    ..orig[q]@
                }),
        decreases n - i,
    {
        let ghost pre = instructions@;
        let mut inst = instructions.remove(i);
        let ghost iorig = inst@;
        let ghost secrets = inst@.secrets;
        proof {
            assert(iorig == orig[i as int]@);
        }
        let sn = inst.secrets.len();
        let mut j: usize = 0;
        proof {
            assert(secrets.take(0) =~= Seq::<(Seq<char>, Seq<char>)>::empty());
        }
        while j < sn
            invariant
                orig == old(instructions)@,
                n == orig.len(),
                0 <= i < n,
                pre.len() == n,
                instructions@ == pre.remove(i as int),
                forall|q: int| i <= q < n ==> pre[q] == orig[q],
                forall|q: int|
                    0 <= q < i ==> all_secrets_ok(#[trigger] orig[q]@.secrets, crypto@),
                forall|q: int|
                    0 <= q < i ==> #[trigger] pre[q]@ == (InstrSpec {
                        variables: vars_with_secrets(
                            orig[q]@.variables,
                            orig[q]@.secrets,
                            crypto@,
                            case_sensitive,
                        ),
                        ..orig[q]@
                    }),
                iorig == orig[i as int]@,
                sn == secrets.len(),
                secrets == iorig.secrets,
                0 <= j <= sn,
                inst.secrets.entries() == secrets,
                inst.name@ == iorig.name,
                inst.template@ == iorig.template,
                inst.is_remote == iorig.is_remote,
                inst.variables.entries() == vars_with_secrets(
                    iorig.variables,
                    secrets.take(j as int),
                    crypto@,
                    case_sensitive,
                ),
                forall|q: int| 0 <= q < j ==> decrypt_spec(crypto@, secrets[q].1) is Plain,
            decreases sn - j,
        {
            proof {
                assert(secrets.take(j + 1).drop_last() =~= secrets.take(j as int));
                assert(secrets.take(j + 1).last() == secrets[j as int]);
            }
            let decrypted: Result<String, CryptoError> = {
                let (_k, v) = inst.secrets.entry_at(j);
                crypto.decrypt(v.as_str())
            };
            match decrypted {
                Err(e) => {
                    proof {
                        assert(!(decrypt_spec(crypto@, secrets[j as int].1) is Plain));
                        assert(orig[i as int]@.secrets == secrets);
                    }
                    let ghost gi = inst;
                    instructions.insert(i, inst);
                    proof {
                        assert(instructions@ =~= pre.update(i as int, gi));
                        assert(forall|q: int|
                            i < q < orig.len() ==> instructions@[q] == orig[q]);
                        assert(forall|q: int|
                            0 <= q < i ==> #[trigger] instructions@[q]@ == (InstrSpec {
                                variables: vars_with_secrets(
                                    orig[q]@.variables,
                                    orig[q]@.secrets,
                                    crypto@,
                                    case_sensitive,
                                ),
                                ..orig[q]@
                            }));
                        assert(instructions@[i as int]@ == (InstrSpec {
                            variables: vars_with_secrets(
                                orig[i as int]@.variables,
                                orig[i as int]@.secrets.take(j as int),
                                crypto@,
                                case_sensitive,
                            ),
                            ..orig[i as int]@
                        }));
                    }
                    return Err(e);
                },
                Ok(value) => {
                    let nk = {
                        let (k, _v) = inst.secrets.entry_at(j);
                        normalize_key(k.as_str(), case_sensitive)
                    };
                    inst.variables.insert(nk.as_str(), value.as_str());
                },
            }
            j += 1;
        }
        proof {
            assert(secrets.take(sn as int) =~= secrets);
        }
        let ghost gi = inst;
        instructions.insert(i, inst);
        proof {
            assert(instructions@ =~= pre.update(i as int, gi));
        }
        i += 1;
    }
    Ok(())
}

/// The map key under which one instruction's secret is queued for rewriting.
pub open spec fn qualified(name: Seq<char>, key: Seq<char>) -> Seq<char> {
    name + "::"@ + key
}

pub open spec fn qualify_all(
    name: Seq<char>,
    secrets: Seq<(Seq<char>, Seq<char>)>,
) -> Seq<(Seq<char>, Seq<char>)> {
    Seq::new(secrets.len(), |i: int| (qualified(name, secrets[i].0), secrets[i].1))
}

/// Every secret of every instruction, under its qualified key, in order.
pub open spec fn qualified_secrets(instrs: Seq<InstrSpec>) -> Seq<(Seq<char>, Seq<char>)>
    decreases instrs.len(),
{
    if instrs.len() == 0 {
        Seq::empty()
    } else {
        qualified_secrets(instrs.drop_last()) + qualify_all(
            instrs.last().name,
            instrs.last().secrets,
        )
    }
}

pub ghost struct RewriteState {
    pub section: Option<Seq<char>>,
    pub in_secrets: bool,
}

/// How one raw line is copied or rewritten: section headers update the state,
/// and an assignment inside a secrets section whose qualified key is queued is
/// replaced by `key = cipher`.
pub open spec fn rewrite_step(
    st: RewriteState,
    line: Seq<char>,
    m: Map<Seq<char>, Seq<char>>,
) -> Option<(RewriteState, Seq<char>)> {
    let t = trim_spec(line);
    if t.len() > 0 && t[0] == '[' && t.last() == ']' {
        let inner = bracket_trim_spec(t);
        let k = last_idx(inner, ':');
        if k < 0 {
            Option::None
        } else {
            Option::Some(
                (
                    RewriteState {
                        section: Option::Some(inner.take(k)),
                        in_secrets: inner.skip(k + 1) == "secrets"@,
                    },
                    line + seq!['\n'],
                ),
            )
        }
    } else {
        let eq = first_idx(t, '=', 0);
        match st.section {
            Option::Some(name) => {
                if st.in_secrets && eq < t.len() {
                    let key = trim_spec(t.take(eq));
                    let qk = qualified(name, key);
                    if m.contains_key(qk) {
                        Option::Some((st, key + " = "@ + m[qk] + seq!['\n']))
                    } else {
                        Option::Some((st, line + seq!['\n']))
                    }
                } else {
                    Option::Some((st, line + seq!['\n']))
                }
            },
            Option::None => Option::Some((st, line + seq!['\n'])),
        }
    }
}

pub open spec fn rewrite_lines(
    lines: Seq<Seq<char>>,
    m: Map<Seq<char>, Seq<char>>,
    upto: int,
) -> Option<(RewriteState, Seq<char>)>
    decreases upto,
    when upto >= 0
{
    if upto <= 0 {
        Option::Some((RewriteState { section: Option::None, in_secrets: false }, Seq::empty()))
    } else {
        match rewrite_lines(lines, m, upto - 1) {
            Option::None => Option::None,
            Option::Some(sa) => match rewrite_step(sa.0, lines[upto - 1], m) {
                Option::None => Option::None,
                Option::Some(sf) => Option::Some((sf.0, sa.1 + sf.1)),
            },
        }
    }
}

pub open spec fn trim_end_nl(s: Seq<char>) -> Seq<char>
    decreases s.len(),
{
    if s.len() > 0 && s.last() == '\n' {
        trim_end_nl(s.drop_last())
    } else {
        s
    }
}

proof fn lemma_trim_end_nl(s: Seq<char>, e: int)
    requires
        0 <= e <= s.len(),
        forall|q: int| e <= q < s.len() ==> s[q] == '\n',
        e == 0 || s[e - 1] != '\n',
    ensures
        trim_end_nl(s) == s.take(e),
    decreases s.len() - e,
{
    if e == s.len() {
        assert(s.take(e) =~= s);
    } else {
        lemma_trim_end_nl(s.drop_last(), e);
        assert(s.drop_last().take(e) =~= s.take(e));
    }
}

/// The rewritten recipe text: every line copied verbatim but for queued
/// secret assignments, joined by newlines, with trailing newlines stripped.
pub open spec fn rewrite_spec(lines: Seq<Seq<char>>, m: Map<Seq<char>, Seq<char>>) -> Option<
    Seq<char>,
> {
    match rewrite_lines(lines, m, lines.len() as int) {
        Option::None => Option::None,
        Option::Some(sa) => Option::Some(trim_end_nl(sa.1)),
    }
}

/// Every line that parsing accepted and that has the section-header shape
/// carries a colon: the header branch of `line_step` rejects it otherwise.
proof fn lemma_parsed_header_has_colon(lines: Seq<Seq<char>>, cs: bool, i: int)
    requires
        parse_lines(lines, cs) is Ok,
        0 <= i < lines.len(),
        trim_spec(lines[i]).len() > 0,
        trim_spec(lines[i])[0] == '[',
        trim_spec(lines[i]).last() == ']',
    ensures
        last_idx(bracket_trim_spec(trim_spec(lines[i])), ':') >= 0,
{
    if parse_lines(lines.take(i + 1), cs) is Err {
        lemma_parse_lines_extend_err(lines, cs, i + 1);
        assert(false);
    }
    assert(lines.take(i + 1).drop_last() =~= lines.take(i as int));
    assert(lines.take(i + 1).last() == lines[i]);
    if parse_lines(lines.take(i as int), cs) is Err {
        lemma_parse_lines_extend_err(lines, cs, i as int);
        assert(false);
    }
}

/// How rewriting a recipe's secrets can fail.
#[derive(Debug)]
pub enum RewriteError {
    /// The recipe text does not parse.
    Parse(ParseError),
    /// A secret value cannot be encrypted.
    Crypto(CryptoError),
}

impl RewriteError {
    /// The error text, as shown to the user.
    pub fn message(&self) -> (r: String)
        ensures
            match self {
                RewriteError::Parse(e) => r@ == parse_err_text(e@),
                RewriteError::Crypto(e) => r@ == crypto_err_text(*e),
            },
    {
        match self {
            RewriteError::Parse(e) => e.message(),
            RewriteError::Crypto(e) => e.message(),
        }
    }
}

/// Parses the recipe text case-sensitively, encrypts every secret value, and
/// rewrites the text in place: only queued secret assignments change, and each
/// queued ciphertext decrypts back to the original secret value.
pub fn encrypt_recipe_file(content: &str, crypto: &Crypto) -> (r: Result<String, RewriteError>)
    ensures
        parse_spec(content@, true) matches Err(e) ==> (r matches Err(re) && re matches
            RewriteError::Parse(pe) && pe@ == e),
        r matches Err(re) ==> (re matches RewriteError::Parse(pe) ==> (parse_spec(content@, true)
            matches Err(e) && pe@ == e)),
        r matches Err(re) ==> (re matches RewriteError::Crypto(ce) ==> {
            ||| ce is InitFailure && crypto@.len() != 32
            ||| ce is EncryptFailure && (parse_spec(content@, true) matches Ok(rs) && exists|
                i: int,
                j: int,
            |
                0 <= i < rs.instructions.len() && 0 <= j < rs.instructions[i].secrets.len()
                    && encode_utf8(#[trigger] rs.instructions[i].secrets[j].1).len()
                    > eax_plain_max())
        }),
        (parse_spec(content@, true) matches Ok(rs) && crypto@.len() == 32 && (forall|
            i: int,
            j: int,
        |
            0 <= i < rs.instructions.len() && 0 <= j < rs.instructions[i].secrets.len()
                ==> encode_utf8(#[trigger] rs.instructions[i].secrets[j].1).len()
                    <= eax_plain_max()))
            ==> r is Ok,
        r matches Ok(out) ==> (parse_spec(content@, true) matches Ok(rs) && exists|
            m: Map<Seq<char>, Seq<char>>,
        |
            {
                &&& #[trigger] rewrite_spec(rs.raw_lines, m) == Option::Some(out@)
                &&& m.dom() == map_of(qualified_secrets(rs.instructions)).dom()
                &&& forall|k: Seq<char>|
                    m.dom().contains(k) ==> decrypt_spec(crypto@, #[trigger] m[k])
                        == DecryptOut::Plain(map_of(qualified_secrets(rs.instructions))[k])
            }),
{
    let recipe = match parse(content, true) {
        Ok(rc) => rc,
        Err(e) => {
            return Err(RewriteError::Parse(e));
        },
    };
    let ghost instrs = instr_views(recipe.instructions@);
    let mut encrypted = StrMap::new();
    let n = recipe.instructions.len();
    let mut i: usize = 0;
    proof {
        assert(instrs.take(0) =~= Seq::<InstrSpec>::empty());
    }
    while i < n
        invariant
            parse_spec(content@, true) == Result::<RecipeSpec, ParseErrSpec>::Ok(recipe@),
            n == recipe.instructions@.len(),
            instrs == instr_views(recipe.instructions@),
            0 <= i <= n,
            encrypted@.dom() == map_of(qualified_secrets(instrs.take(i as int))).dom(),
            forall|k: Seq<char>|
                encrypted@.dom().contains(k) ==> decrypt_spec(crypto@, #[trigger] encrypted@[k])
                    == DecryptOut::Plain(map_of(qualified_secrets(instrs.take(i as int)))[k]),
        decreases n - i,
    {
        let ghost qprev = qualified_secrets(instrs.take(i as int));
        let inst = &recipe.instructions[i];
        let ghost secrets = inst@.secrets;
        let sn = inst.secrets.len();
        let mut j: usize = 0;
        proof {
            assert(qualify_all(inst@.name, secrets.take(0)) =~= Seq::<(Seq<char>, Seq<char>)>::empty());
            assert(qprev + qualify_all(inst@.name, secrets.take(0)) =~= qprev);
        }
        while j < sn
            invariant
                parse_spec(content@, true) == Result::<RecipeSpec, ParseErrSpec>::Ok(recipe@),
                n == recipe.instructions@.len(),
                instrs == instr_views(recipe.instructions@),
                0 <= i < n,
                inst@ == instrs[i as int],
                qprev == qualified_secrets(instrs.take(i as int)),
                secrets == inst@.secrets,
                sn == secrets.len(),
                0 <= j <= sn,
                encrypted@.dom() == map_of(
                    qprev + qualify_all(inst@.name, secrets.take(j as int)),
                ).dom(),
                forall|k: Seq<char>|
                    encrypted@.dom().contains(k) ==> decrypt_spec(
                        crypto@,
                        #[trigger] encrypted@[k],
                    ) == DecryptOut::Plain(
                        map_of(qprev + qualify_all(inst@.name, secrets.take(j as int)))[k],
                    ),
            decreases sn - j,
        {
            let ghost qcur = qprev + qualify_all(inst@.name, secrets.take(j as int));
            let (k, v) = inst.secrets.entry_at(j);
            let env = match crypto.encrypt(v.as_str()) {
                Ok(env) => env,
                Err(e) => {
                    proof {
                        let grs = recipe@;
                        assert(parse_spec(content@, true) == Result::<
                            RecipeSpec,
                            ParseErrSpec,
                        >::Ok(grs));
                        assert(grs.instructions == instrs);
                        assert(grs.instructions[i as int].secrets[j as int].1 == v@);
                        if crypto@.len() == 32 {
                            assert(e is EncryptFailure && encode_utf8(v@).len()
                                > eax_plain_max());
                            assert(0 <= i < grs.instructions.len() && 0 <= j
                                < grs.instructions[i as int].secrets.len() && encode_utf8(
                                grs.instructions[i as int].secrets[j as int].1,
                            ).len() > eax_plain_max());
                            assert(parse_spec(content@, true) matches Ok(rs) && exists|
                                a: int,
                                b: int,
                            |
                                0 <= a < rs.instructions.len() && 0 <= b
                                    < rs.instructions[a].secrets.len() && encode_utf8(
                                    #[trigger] rs.instructions[a].secrets[b].1,
                                ).len() > eax_plain_max());
                        } else {
                            assert(e is InitFailure);
                        }
                    }
                    return Err(RewriteError::Crypto(e));
                },
            };
            let mut qk = String::from_str(inst.name.as_str());
            qk.append("::");
            qk.append(k.as_str());
            proof {
                reveal_strlit("::");
                assert(qk@ =~= qualified(instrs[i as int].name, secrets[j as int].0));
                let qnext = qprev + qualify_all(instrs[i as int].name, secrets.take(j + 1));
                assert(qnext =~= qcur.push((qk@, secrets[j as int].1)));
                assert(qnext.drop_last() =~= qcur);
                assert(map_of(qnext) == map_of(qcur).insert(qk@, secrets[j as int].1));
            }
            encrypted.insert(qk.as_str(), env.as_str());
            proof {
                let qnext = qprev + qualify_all(inst@.name, secrets.take(j + 1));
                assert(encrypted@.dom() =~= map_of(qnext).dom());
            }
            j += 1;
        }
        proof {
            assert(secrets.take(sn as int) =~= secrets);
            assert(instrs.take(i + 1).drop_last() =~= instrs.take(i as int));
            assert(instrs.take(i + 1).last() == instrs[i as int]);
            assert(qualified_secrets(instrs.take(i + 1)) == qprev + qualify_all(
                inst@.name,
                secrets,
            ));
        }
        i += 1;
    }
    proof {
        assert(instrs.take(n as int) =~= instrs);
    }
    let ghost m = encrypted@;
    let ghost rlines = recipe.raw_lines.deep_view();
    let mut out = String::new();
    let mut current_name: Option<String> = None;
    let mut in_secrets = false;
    let nl = recipe.raw_lines.len();
    let mut li: usize = 0;
    proof {
        assert(rewrite_lines(rlines, m, 0) matches Some(sa) && sa.1 =~= Seq::<char>::empty());
    }
    while li < nl
        invariant
            parse_spec(content@, true) == Result::<RecipeSpec, ParseErrSpec>::Ok(recipe@),
            instrs == instr_views(recipe.instructions@),
            m == encrypted@,
            m.dom() == map_of(qualified_secrets(instrs)).dom(),
            forall|k: Seq<char>|
                m.dom().contains(k) ==> decrypt_spec(crypto@, #[trigger] m[k])
                    == DecryptOut::Plain(map_of(qualified_secrets(instrs))[k]),
            nl == recipe.raw_lines@.len(),
            rlines == recipe.raw_lines.deep_view(),
            0 <= li <= nl,
            rewrite_lines(rlines, m, li as int) matches Some(sa) && sa.0 == (RewriteState {
                section: opt_view(current_name),
                in_secrets: in_secrets,
            }) && sa.1 == out@,
        decreases nl - li,
    {
        let ghost st0 = RewriteState { section: opt_view(current_name), in_secrets: in_secrets };
        let ghost out0 = out@;
        proof {
            assert(rlines[li as int] == recipe.raw_lines@[li as int]@);
        }
        let line = &recipe.raw_lines[li];
        let t = trim(line.as_str());
        let tn = t.unicode_len();
        let is_header = tn > 0 && t.get_char(0) == '[' && t.get_char(tn - 1) == ']';
        if is_header {
            let inner = bracket_trim(t);
            match split_section(inner) {
                None => {
                    proof {
                        // parsing validated every section header, so a
                        // header without a colon cannot occur here
                        assert(rlines == lines_spec(content@));
                        assert(parse_lines(lines_spec(content@), true) is Ok);
                        lemma_parsed_header_has_colon(rlines, true, li as int);
                        assert(false);
                    }
                    return Err(
                        RewriteError::Parse(
                            ParseError::MalformedSection(String::from_str(line.as_str())),
                        ),
                    );
                },
                Some(np) => {
                    in_secrets = str_eq(np.1.as_str(), "secrets");
                    current_name = Some(np.0);
                    out.append(line.as_str());
                    out.append("\n");
                    proof {
                        reveal_strlit("\n");
                        assert("\n"@ =~= seq!['\n']);
                        assert(out@ =~= out0 + (rlines[li as int] + seq!['\n']));
                    }
                },
            }
        } else {
            let eq = find_from(t, '=', 0);
            let mut replaced = false;
            if in_secrets && eq < tn {
                if current_name.is_some() {
                    let key = trim(t.substring_char(0, eq));
                    proof {
                        assert(t@.subrange(0, eq as int) =~= trim_spec(line@).take(eq as int));
                    }
                    let name_str = match &current_name {
                        Some(s) => s.as_str(),
                        None => "",
                    };
                    let mut qk = String::from_str(name_str);
                    qk.append("::");
                    qk.append(key);
                    match encrypted.get(qk.as_str()) {
                        Some(vv) => {
                            out.append(key);
                            out.append(" = ");
                            out.append(vv.as_str());
                            out.append("\n");
                            proof {
                                reveal_strlit(" = ");
                                reveal_strlit("\n");
                                reveal_strlit("::");
                                assert("\n"@ =~= seq!['\n']);
                                assert(qk@ =~= qualified(
                                    st0.section->0,
                                    trim_spec(trim_spec(line@).take(eq as int)),
                                ));
                                assert(out@ =~= out0 + (trim_spec(
                                    trim_spec(line@).take(eq as int),
                                ) + " = "@ + m[qk@] + seq!['\n']));
                            }
                            replaced = true;
                        },
                        None => {},
                    }
                }
            }
            if !replaced {
                out.append(line.as_str());
                out.append("\n");
                proof {
                    reveal_strlit("\n");
                    assert("\n"@ =~= seq!['\n']);
                    assert(out@ =~= out0 + (rlines[li as int] + seq!['\n']));
                }
            }
        }
        proof {
            assert(rewrite_lines(rlines, m, li + 1) matches Some(sa) && sa.0 == (RewriteState {
                section: opt_view(current_name),
                in_secrets: in_secrets,
            }) && sa.1 == out@);
        }
        li += 1;
    }
    proof {
        assert(rewrite_lines(rlines, m, nl as int) is Some);
    }
    let on = out.as_str().unicode_len();
    let mut end = on;
    while end > 0 && out.as_str().get_char(end - 1) == '\n'
        invariant
            parse_spec(content@, true) == Result::<RecipeSpec, ParseErrSpec>::Ok(recipe@),
            instrs == instr_views(recipe.instructions@),
            m == encrypted@,
            m.dom() == map_of(qualified_secrets(instrs)).dom(),
            forall|k: Seq<char>|
                m.dom().contains(k) ==> decrypt_spec(crypto@, #[trigger] m[k])
                    == DecryptOut::Plain(map_of(qualified_secrets(instrs))[k]),
            rlines == recipe.raw_lines.deep_view(),
            rewrite_lines(rlines, m, rlines.len() as int) matches Some(sa) && sa.1 == out@,
            on == out@.len(),
            0 <= end <= on,
            forall|q: int| end <= q < on ==> out@[q] == '\n',
        decreases end,
    {
        end -= 1;
    }
    proof {
        lemma_trim_end_nl(out@, end as int);
    }
    let result = String::from_str(out.as_str().substring_char(0, end));
    proof {
        assert(result@ =~= out@.take(end as int));
        let grs = recipe@;
        assert(grs.raw_lines == rlines && grs.instructions == instrs);
        assert(rewrite_spec(grs.raw_lines, m) == Option::Some(result@));
        assert(m.dom() == map_of(qualified_secrets(grs.instructions)).dom());
    }
    Ok(result)
}

/// Whether a partial-instruction list entry's name equals a string.
fn str_eq_at(partials: &Vec<(String, PartialInstruction)>, i: usize, name: &str) -> (r: bool)
    requires
        i < partials@.len(),
    ensures
        r == (partial_views(partials@)[i as int].0 == name@),
{
    str_eq(partials[i].0.as_str(), name)
}

} // verus!
