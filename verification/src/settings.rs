use vstd::prelude::*;
use vstd::string::*;
use crate::strmap::{insert_entries, views_of, StrMap};
use crate::text::{first_idx, lines_spec, lower_of, lowercase, split_lines, str_eq, trim,
    trim_spec, upper_of, uppercase};

verus! {

/// Process-wide configuration, loaded once from the dotfile and passed by
/// reference. Paths are plain strings.
pub struct Settings {
    pub debug: bool,
    pub encoding: String,
    pub recipe_case_sensitive: bool,
    pub repository: Option<String>,
    pub repository_type: Option<String>,
    pub repository_auth: Option<String>,
    pub repository_custom_pattern: Option<String>,
    pub storage_recipe: String,
    pub storage_recipe_index: String,
    pub storage_recipe_meta: String,
    pub storage_key_path: String,
    pub storage_templates: String,
    pub template_ext: Option<String>,
    pub custom_overrides: StrMap,
}

pub ghost struct SettingsSpec {
    pub debug: bool,
    pub encoding: Seq<char>,
    pub recipe_case_sensitive: bool,
    pub repository: Option<Seq<char>>,
    pub repository_type: Option<Seq<char>>,
    pub repository_auth: Option<Seq<char>>,
    pub repository_custom_pattern: Option<Seq<char>>,
    pub storage_recipe: Seq<char>,
    pub storage_recipe_index: Seq<char>,
    pub storage_recipe_meta: Seq<char>,
    pub storage_key_path: Seq<char>,
    pub storage_templates: Seq<char>,
    pub template_ext: Option<Seq<char>>,
    pub custom_overrides: Seq<(Seq<char>, Seq<char>)>,
}

impl View for Settings {
    type V = SettingsSpec;

    open spec fn view(&self) -> SettingsSpec {
        SettingsSpec {
            debug: self.debug,
            encoding: self.encoding@,
            recipe_case_sensitive: self.recipe_case_sensitive,
            repository: crate::recipe::opt_view(self.repository),
            repository_type: crate::recipe::opt_view(self.repository_type),
            repository_auth: crate::recipe::opt_view(self.repository_auth),
            repository_custom_pattern: crate::recipe::opt_view(self.repository_custom_pattern),
            storage_recipe: self.storage_recipe@,
            storage_recipe_index: self.storage_recipe_index@,
            storage_recipe_meta: self.storage_recipe_meta@,
            storage_key_path: self.storage_key_path@,
            storage_templates: self.storage_templates@,
            template_ext: crate::recipe::opt_view(self.template_ext),
            custom_overrides: self.custom_overrides.entries(),
        }
    }
}

/// What `true` and `false` parse to, after lower-casing; anything else is
/// unrecognized.
pub open spec fn parse_bool_spec(v: Seq<char>) -> Option<bool> {
    if lower_of(v) == "true"@ {
        Option::Some(true)
    } else if lower_of(v) == "false"@ {
        Option::Some(false)
    } else {
        Option::None
    }
}

/// Parses a boolean setting value, case-insensitively.
pub fn parse_bool(value: &str) -> (r: Option<bool>)
    ensures
        r == parse_bool_spec(value@),
{
    let l = lowercase(value);
    if str_eq(l.as_str(), "true") {
        Some(true)
    } else if str_eq(l.as_str(), "false") {
        Some(false)
    } else {
        None
    }
}

/// The effect of one dotfile line: a `KEY = value` assignment is recorded
/// among the overrides and applied when the upper-cased key is recognized.
pub open spec fn setting_step(s: SettingsSpec, line: Seq<char>, verbose: bool) -> SettingsSpec {
    let t = trim_spec(line);
    if t.len() == 0 || t[0] == '#' {
        s
    } else {
        let eq = first_idx(t, '=', 0);
        if eq >= t.len() {
            s
        } else {
            let key = upper_of(trim_spec(t.take(eq)));
            let val = trim_spec(t.skip(eq + 1));
            let s1 = SettingsSpec {
                custom_overrides: insert_entries(s.custom_overrides, key, val),
                ..s
            };
            if key == "DEBUG"@ {
                SettingsSpec {
                    debug: match parse_bool_spec(val) {
                        Option::Some(b) => b,
                        Option::None => verbose,
                    },
                    ..s1
                }
            } else if key == "ENCODING"@ {
                SettingsSpec { encoding: val, ..s1 }
            } else if key == "RECIPE_CASE_SENSITIVE"@ {
                SettingsSpec {
                    recipe_case_sensitive: match parse_bool_spec(val) {
                        Option::Some(b) => b,
                        Option::None => false,
                    },
                    ..s1
                }
            } else if key == "REPOSITORY"@ {
                SettingsSpec { repository: Option::Some(val), ..s1 }
            } else if key == "REPOSITORY_TYPE"@ {
                SettingsSpec { repository_type: Option::Some(val), ..s1 }
            } else if key == "REPOSITORY_AUTH"@ {
                SettingsSpec { repository_auth: Option::Some(val), ..s1 }
            } else if key == "REPOSITORY_CUSTOM_PATTERN"@ {
                SettingsSpec { repository_custom_pattern: Option::Some(val), ..s1 }
            } else if key == "STORAGE_RECIPE"@ {
                SettingsSpec { storage_recipe: val, ..s1 }
            } else if key == "STORAGE_RECIPE_INDEX"@ {
                SettingsSpec { storage_recipe_index: val, ..s1 }
            } else if key == "STORAGE_RECIPE_META"@ {
                SettingsSpec { storage_recipe_meta: val, ..s1 }
            } else if key == "STORAGE_KEY_PATH"@ {
                SettingsSpec { storage_key_path: val, ..s1 }
            } else if key == "STORAGE_TEMPLATES"@ {
                SettingsSpec { storage_templates: val, ..s1 }
            } else if key == "TEMPLATE_EXT"@ {
                SettingsSpec {
                    template_ext: if lower_of(val) == "none"@ {
                        Option::None
                    } else {
                        Option::Some(lower_of(val))
                    },
                    ..s1
                }
            } else {
                s1
            }
        }
    }
}

pub open spec fn settings_after(s: SettingsSpec, lines: Seq<Seq<char>>, verbose: bool) -> SettingsSpec
    decreases lines.len(),
{
    if lines.len() == 0 {
        s
    } else {
        setting_step(settings_after(s, lines.drop_last(), verbose), lines.last(), verbose)
    }
}

pub open spec fn bool_str(b: bool) -> Seq<char> {
    if b {
        "true"@
    } else {
        "false"@
    }
}

pub open spec fn opt_str(o: Option<Seq<char>>) -> Seq<char> {
    match o {
        Option::Some(s) => s,
        Option::None => "None"@,
    }
}

/// The settings as displayed: either the raw overrides alone, or every
/// recognized key with its effective value.
pub open spec fn values_spec(s: SettingsSpec, custom_only: bool) -> Seq<(Seq<char>, Seq<char>)> {
    if custom_only && s.custom_overrides.len() > 0 {
        s.custom_overrides
    } else {
        seq![
            ("DEBUG"@, bool_str(s.debug)),
            ("ENCODING"@, s.encoding),
            ("RECIPE_CASE_SENSITIVE"@, bool_str(s.recipe_case_sensitive)),
            ("REPOSITORY"@, opt_str(s.repository)),
            ("REPOSITORY_TYPE"@, opt_str(s.repository_type)),
            ("REPOSITORY_AUTH"@, opt_str(s.repository_auth)),
            ("REPOSITORY_CUSTOM_PATTERN"@, opt_str(s.repository_custom_pattern)),
            ("STORAGE_RECIPE"@, s.storage_recipe),
            ("STORAGE_RECIPE_INDEX"@, s.storage_recipe_index),
            ("STORAGE_RECIPE_META"@, s.storage_recipe_meta),
            ("STORAGE_KEY_PATH"@, s.storage_key_path),
            ("STORAGE_TEMPLATES"@, s.storage_templates),
            ("TEMPLATE_EXT"@, opt_str(s.template_ext)),
        ]
    }
}

fn bool_string(b: bool) -> (r: String)
    ensures
        r@ == bool_str(b),
{
    if b {
        String::from_str("true")
    } else {
        String::from_str("false")
    }
}

fn opt_string(o: &Option<String>) -> (r: String)
    ensures
        r@ == opt_str(crate::recipe::opt_view(*o)),
{
    match o {
        Some(s) => String::from_str(s.as_str()),
        None => String::from_str("None"),
    }
}

impl Settings {
    /// The built-in defaults: quiet unless verbose, UTF-8, case-insensitive
    /// keys, no repository, and storage paths under the given directory.
    pub fn new(verbose: bool, base_dir: &str) -> (r: Settings)
        ensures
            r@ == (SettingsSpec {
                debug: verbose,
                encoding: "utf-8"@,
                recipe_case_sensitive: false,
                repository: Option::None,
                repository_type: Option::None,
                repository_auth: Option::None,
                repository_custom_pattern: Option::None,
                storage_recipe: base_dir@ + "/recipes"@,
                storage_recipe_index: base_dir@ + "/index"@,
                storage_recipe_meta: base_dir@ + "/meta"@,
                storage_key_path: base_dir@ + "/baker.key"@,
                storage_templates: base_dir@ + "/templates"@,
                template_ext: Option::Some("tpl"@),
                custom_overrides: Seq::empty(),
            }),
    {
        Settings {
            debug: verbose,
            encoding: String::from_str("utf-8"),
            recipe_case_sensitive: false,
            repository: None,
            repository_type: None,
            repository_auth: None,
            repository_custom_pattern: None,
            storage_recipe: String::from_str(base_dir).concat("/recipes"),
            storage_recipe_index: String::from_str(base_dir).concat("/index"),
            storage_recipe_meta: String::from_str(base_dir).concat("/meta"),
            storage_key_path: String::from_str(base_dir).concat("/baker.key"),
            storage_templates: String::from_str(base_dir).concat("/templates"),
            template_ext: Some(String::from_str("tpl")),
            custom_overrides: StrMap::new(),
        }
    }

    /// Applies every `KEY = value` line of the dotfile text in order, as
    /// `settings_after` describes.
    pub fn apply_dotfile(&mut self, content: &str, verbose: bool)
        ensures
            final(self)@ == settings_after(old(self)@, lines_spec(content@), verbose),
    {
        let lines = split_lines(content);
        let ghost lns = lines_spec(content@);
        let mut li: usize = 0;
        proof {
            assert(lns.take(0) =~= Seq::<Seq<char>>::empty());
        }
        while li < lines.len()
            invariant
                lines.deep_view() == lns,
                0 <= li <= lines@.len(),
                lines@.len() == lns.len(),
                self@ == settings_after(old(self)@, lns.take(li as int), verbose),
            decreases lines@.len() - li,
        {
            proof {
                assert(lns.take(li + 1).drop_last() =~= lns.take(li as int));
                assert(lns.take(li + 1).last() == lns[li as int]);
                assert(lines.deep_view()[li as int] == lines@[li as int]@);
            }
            let line = &lines[li];
            let t = trim(line.as_str());
            let tn = t.unicode_len();
            if tn == 0 || t.get_char(0) == '#' {
                // blank or comment
            } else {
                let eq = crate::text::find_from(t, '=', 0);
                if eq < tn {
                    let key_raw = trim(t.substring_char(0, eq));
                    let val = trim(t.substring_char(eq + 1, tn));
                    proof {
                        assert(t@.subrange(0, eq as int) =~= trim_spec(line@).take(eq as int));
                        assert(t@.subrange(eq + 1, tn as int) =~= trim_spec(line@).skip(eq + 1));
                    }
                    let key = uppercase(key_raw);
                    self.custom_overrides.insert(key.as_str(), val);
                    if str_eq(key.as_str(), "DEBUG") {
                        self.debug = match parse_bool(val) {
                            Some(b) => b,
                            None => verbose,
                        };
                    } else if str_eq(key.as_str(), "ENCODING") {
                        self.encoding = String::from_str(val);
                    } else if str_eq(key.as_str(), "RECIPE_CASE_SENSITIVE") {
                        self.recipe_case_sensitive = match parse_bool(val) {
                            Some(b) => b,
                            None => false,
                        };
                    } else if str_eq(key.as_str(), "REPOSITORY") {
                        self.repository = Some(String::from_str(val));
                    } else if str_eq(key.as_str(), "REPOSITORY_TYPE") {
                        self.repository_type = Some(String::from_str(val));
                    } else if str_eq(key.as_str(), "REPOSITORY_AUTH") {
                        self.repository_auth = Some(String::from_str(val));
                    } else if str_eq(key.as_str(), "REPOSITORY_CUSTOM_PATTERN") {
                        self.repository_custom_pattern = Some(String::from_str(val));
                    } else if str_eq(key.as_str(), "STORAGE_RECIPE") {
                        self.storage_recipe = String::from_str(val);
                    } else if str_eq(key.as_str(), "STORAGE_RECIPE_INDEX") {
                        self.storage_recipe_index = String::from_str(val);
                    } else if str_eq(key.as_str(), "STORAGE_RECIPE_META") {
                        self.storage_recipe_meta = String::from_str(val);
                    } else if str_eq(key.as_str(), "STORAGE_KEY_PATH") {
                        self.storage_key_path = String::from_str(val);
                    } else if str_eq(key.as_str(), "STORAGE_TEMPLATES") {
                        self.storage_templates = String::from_str(val);
                    } else if str_eq(key.as_str(), "TEMPLATE_EXT") {
                        let lv = lowercase(val);
                        if str_eq(lv.as_str(), "none") {
                            self.template_ext = None;
                        } else {
                            self.template_ext = Some(lv);
                        }
                    }
                }
            }
            li += 1;
        }
        proof {
            assert(lns.take(lns.len() as int) =~= lns);
        }
    }

    /// The settings as displayed, as `values_spec` describes.
    pub fn values(&self, custom_only: bool) -> (r: Vec<(String, String)>)
        ensures
            views_of(r@) == values_spec(self@, custom_only),
    {
        if custom_only {
            let cn = self.custom_overrides.len();
            if cn > 0 {
                let mut out: Vec<(String, String)> = Vec::new();
                let mut i: usize = 0;
                proof {
                    assert(views_of(out@) =~~= self.custom_overrides.entries().take(0));
                }
                while i < cn
                    invariant
                        cn == self.custom_overrides.entries().len(),
                        0 <= i <= cn,
                        views_of(out@) == self.custom_overrides.entries().take(i as int),
                    decreases cn - i,
                {
                    let ghost out0 = out@;
                    let (k, v) = self.custom_overrides.entry_at(i);
                    let pair = (String::from_str(k.as_str()), String::from_str(v.as_str()));
                    proof {
                        assert(pair.0@ == self.custom_overrides.entries()[i as int].0);
                        assert(pair.1@ == self.custom_overrides.entries()[i as int].1);
                        assert(views_of(out0).len() == out0.len());
                        assert(self.custom_overrides.entries().take(i as int).len() == i as int);
                        assert(out0.len() == i as int);
                    }
                    out.push(pair);
                    proof {
                        assert(out@.len() == i + 1);
                        assert(out@[i as int] == pair);
                        assert(views_of(out@)[i as int] == self.custom_overrides.entries()[i as int]);
                        assert(forall|j: int| 0 <= j < i ==> out@[j] == out0[j]);
                        assert(forall|j: int| 0 <= j < i ==> views_of(out@)[j] == views_of(out0)[j]);
                        assert(views_of(out@) =~~= self.custom_overrides.entries().take(i + 1));
                    }
                    i += 1;
                }
                proof {
                    assert(self.custom_overrides.entries().take(cn as int)
                        =~= self.custom_overrides.entries());
                }
                return out;
            }
        }
        let mut out: Vec<(String, String)> = Vec::new();
        out.push((String::from_str("DEBUG"), bool_string(self.debug)));
        out.push((String::from_str("ENCODING"), String::from_str(self.encoding.as_str())));
        out.push(
            (String::from_str("RECIPE_CASE_SENSITIVE"), bool_string(self.recipe_case_sensitive)),
        );
        out.push((String::from_str("REPOSITORY"), opt_string(&self.repository)));
        out.push((String::from_str("REPOSITORY_TYPE"), opt_string(&self.repository_type)));
        out.push((String::from_str("REPOSITORY_AUTH"), opt_string(&self.repository_auth)));
        out.push(
            (
                String::from_str("REPOSITORY_CUSTOM_PATTERN"),
                opt_string(&self.repository_custom_pattern),
            ),
        );
        out.push(
            (String::from_str("STORAGE_RECIPE"), String::from_str(self.storage_recipe.as_str())),
        );
        out.push(
            (
                String::from_str("STORAGE_RECIPE_INDEX"),
                String::from_str(self.storage_recipe_index.as_str()),
            ),
        );
        out.push(
            (
                String::from_str("STORAGE_RECIPE_META"),
                String::from_str(self.storage_recipe_meta.as_str()),
            ),
        );
        out.push(
            (String::from_str("STORAGE_KEY_PATH"), String::from_str(self.storage_key_path.as_str())),
        );
        out.push(
            (
                String::from_str("STORAGE_TEMPLATES"),
                String::from_str(self.storage_templates.as_str()),
            ),
        );
        out.push((String::from_str("TEMPLATE_EXT"), opt_string(&self.template_ext)));
        proof {
            assert(views_of(out@) =~~= values_spec(self@, custom_only));
        }
        out
    }
}

} // verus!
