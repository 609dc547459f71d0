use vstd::prelude::*;
use vstd::string::*;
use crate::recipe::{opt_view, Instruction, TplSpec};
use crate::strmap::StrMap;
use crate::text::{ends_with_str, lower_of, lowercase, spec_ends_with, trim, trim_spec};

verus! {

/// How one rendering pass can end: the rendered text, an unterminated
/// placeholder, or a placeholder whose variable is not bound (carrying the
/// trimmed token text).
pub ghost enum RenderOut {
    Done(Seq<char>),
    Unclosed,
    Missing(Seq<char>),
}

pub open spec fn prepend(pre: Seq<char>, r: RenderOut) -> RenderOut {
    match r {
        RenderOut::Done(s) => RenderOut::Done(pre + s),
        _ => r,
    }
}

/// The position of the first `}}` pair at or after `k`, or the text length
/// when there is none.
pub open spec fn close_idx(tpl: Seq<char>, k: int) -> int
    decreases tpl.len() - k,
    when 0 <= k
{
    if k + 1 >= tpl.len() {
        tpl.len() as int
    } else if tpl[k] == '}' && tpl[k + 1] == '}' {
        k
    } else {
        close_idx(tpl, k + 1)
    }
}

pub proof fn lemma_close_idx(tpl: Seq<char>, k: int)
    requires
        0 <= k <= tpl.len(),
    ensures
        k <= close_idx(tpl, k) <= tpl.len(),
        close_idx(tpl, k) + 1 < tpl.len() ==> tpl[close_idx(tpl, k)] == '}' && tpl[close_idx(
            tpl,
            k,
        ) + 1] == '}',
        close_idx(tpl, k) + 1 == tpl.len() ==> close_idx(tpl, k) == tpl.len(),
        forall|q: int|
            k <= q < close_idx(tpl, k) && q + 1 < tpl.len() ==> !(#[trigger] tpl[q] == '}'
                && tpl[q + 1] == '}'),
    decreases tpl.len() - k,
{
    if k + 1 >= tpl.len() {
    } else if tpl[k] == '}' && tpl[k + 1] == '}' {
    } else {
        lemma_close_idx(tpl, k + 1);
    }
}

/// One pass of placeholder substitution over the text: literal runs are
/// copied, `{{ name }}` is replaced by the binding of the trimmed name
/// (lower-cased unless case-sensitive), a trimmed name starting with a
/// backslash emits a literal `{{` and consumes the placeholder, an unmatched
/// `{{` is an error, and an unbound name is an error carrying the token.
pub open spec fn render_spec(tpl: Seq<char>, m: Map<Seq<char>, Seq<char>>, cs: bool) -> RenderOut
    decreases tpl.len(),
    via render_spec_decreases
{
    if tpl.len() == 0 {
        RenderOut::Done(Seq::empty())
    } else if tpl.len() >= 2 && tpl[0] == '{' && tpl[1] == '{' {
        let k = close_idx(tpl, 2);
        if k >= tpl.len() {
            RenderOut::Unclosed
        } else {
            let name = tpl.subrange(2, k);
            let rest = tpl.skip(k + 2);
            let t = trim_spec(name);
            if t.len() > 0 && t[0] == '\\' {
                prepend(seq!['{', '{'], render_spec(rest, m, cs))
            } else {
                let key = if cs {
                    t
                } else {
                    lower_of(t)
                };
                if m.contains_key(key) {
                    prepend(m[key], render_spec(rest, m, cs))
                } else {
                    RenderOut::Missing(t)
                }
            }
        }
    } else {
        prepend(seq![tpl[0]], render_spec(tpl.skip(1), m, cs))
    }
}

#[via_fn]
proof fn render_spec_decreases(tpl: Seq<char>, m: Map<Seq<char>, Seq<char>>, cs: bool) {
    if tpl.len() >= 2 {
        lemma_close_idx(tpl, 2);
    }
}

proof fn lemma_prepend_assoc(a: Seq<char>, b: Seq<char>, r: RenderOut)
    ensures
        prepend(a, prepend(b, r)) == prepend(a + b, r),
{
    match r {
        RenderOut::Done(s) => {
            assert(a + (b + s) =~= (a + b) + s);
        },
        _ => {},
    }
}

/// How rendering can fail.
#[derive(Debug)]
pub enum TemplateError {
    /// A `{{` with no matching `}}` before the end of the text.
    Unclosed,
    /// A placeholder whose variable is not bound; carries the trimmed token.
    MissingVariable(String),
}

impl TemplateError {
    /// The error text, as shown to the user.
    pub fn message(&self) -> (r: String)
        ensures
            self is Unclosed ==> r@ == "Unclosed template variable"@,
            self matches TemplateError::MissingVariable(t) ==> r@ == "Missing variable "@ + t@,
    {
        match self {
            TemplateError::Unclosed => String::from_str("Unclosed template variable"),
            TemplateError::MissingVariable(t) => String::from_str("Missing variable ").concat(
                t.as_str(),
            ),
        }
    }
}

/// A template text together with the key-comparison mode it is rendered under.
pub struct BakerTemplate {
    template: String,
    case_sensitive: bool,
}

impl BakerTemplate {
    /// The template text.
    pub closed spec fn spec_template(&self) -> Seq<char> {
        self.template@
    }

    /// Whether variable names are compared verbatim.
    pub closed spec fn spec_case_sensitive(&self) -> bool {
        self.case_sensitive
    }

    /// Wraps a template text for rendering.
    pub fn new(template: &str, case_sensitive: bool) -> (r: Self)
        ensures
            r.spec_template() == template@,
            r.spec_case_sensitive() == case_sensitive,
    {
        Self { template: String::from_str(template), case_sensitive }
    }

    /// Substitutes every placeholder from the mapping, exactly as
    /// `render_spec` describes.
    pub fn replace(&self, mapping: &StrMap) -> (r: Result<String, TemplateError>)
        ensures
            match render_spec(self.spec_template(), mapping@, self.spec_case_sensitive()) {
                RenderOut::Done(s) => r matches Ok(v) && v@ == s,
                RenderOut::Unclosed => r matches Err(e) && e is Unclosed,
                RenderOut::Missing(t) => r matches Err(e) && (e matches
                    TemplateError::MissingVariable(tok) && tok@ == t),
            },
    {
        let tpl = self.template.as_str();
        let n = tpl.unicode_len();
        let cs = self.case_sensitive;
        let ghost whole = tpl@;
        let ghost m = mapping@;
        let mut out = String::new();
        let mut idx: usize = 0;
        proof {
            assert(whole.skip(0) =~= whole);
        }
        while idx < n
            invariant
                n == whole.len(),
                whole == self.spec_template(),
                m == mapping@,
                cs == self.spec_case_sensitive(),
                tpl@ == whole,
                0 <= idx <= n,
                render_spec(whole, m, cs) == prepend(out@, render_spec(whole.skip(idx as int), m, cs)),
            decreases n - idx,
        {
            let ghost t = whole.skip(idx as int);
            let ghost out0 = out@;
            let c = tpl.get_char(idx);
            proof {
                assert(t[0] == c);
            }
            if c == '{' && idx + 1 < n && tpl.get_char(idx + 1) == '{' {
                proof {
                    assert(t[1] == whole[idx + 1]);
                }
                let mut j = idx + 2;
                while j < n - 1 && !(tpl.get_char(j) == '}' && tpl.get_char(j + 1) == '}')
                    invariant
                        n == whole.len(),
                        tpl@ == whole,
                        idx + 2 <= j <= n,
                        j <= n,
                        2 <= idx + 2 <= n,
                        forall|q: int|
                            idx + 2 <= q < j && q + 1 < n ==> !(#[trigger] whole[q] == '}'
                                && whole[q + 1] == '}'),
                    decreases n - j,
                {
                    j += 1;
                }
                proof {
                    lemma_close_idx(t, 2);
                    let k = close_idx(t, 2);
                    assert(forall|a: int| 0 <= a < t.len() ==> t[a] == whole[idx + a]);
                    if j < n - 1 {
                        // a close was found at j
                        assert(whole[j as int] == '}' && whole[j + 1] == '}');
                        assert(t[j - idx] == '}' && t[j - idx + 1] == '}');
                        if k < j - idx {
                            assert(k + 1 < t.len());
                            assert(t[k] == '}' && t[k + 1] == '}');
                            assert(whole[idx + k] == '}' && whole[idx + k + 1] == '}');
                        }
                        assert(k == j - idx);
                    } else {
                        // no close anywhere
                        if k < t.len() {
                            assert(k + 1 < t.len());
                            assert(t[k] == '}' && t[k + 1] == '}');
                            assert(whole[idx + k] == '}' && whole[idx + k + 1] == '}');
                            assert(idx + k < j && idx + k + 1 < n);
                            assert(false);
                        }
                        assert(k == t.len());
                    }
                }
                if j >= n - 1 {
                    proof {
                        assert(render_spec(t, m, cs) == RenderOut::Unclosed);
                    }
                    return Err(TemplateError::Unclosed);
                }
                let name = tpl.substring_char(idx + 2, j);
                proof {
                    assert(name@ =~= t.subrange(2, j - idx));
                }
                let ghost rest = whole.skip(j + 2);
                proof {
                    assert(t.skip(j - idx + 2) =~= rest);
                }
                let trimmed = trim(name);
                let tlen = trimmed.unicode_len();
                if tlen > 0 && trimmed.get_char(0) == '\\' {
                    proof {
                        reveal_strlit("{{");
                        assert("{{"@ =~= seq!['{', '{']);
                        assert(render_spec(t, m, cs) == prepend(
                            seq!['{', '{'],
                            render_spec(rest, m, cs),
                        ));
                    }
                    out.append("{{");
                    proof {
                        lemma_prepend_assoc(out0, seq!['{', '{'], render_spec(rest, m, cs));
                    }
                    idx = j + 2;
                } else {
                    let key_string = if cs {
                        String::from_str(trimmed)
                    } else {
                        lowercase(trimmed)
                    };
                    match mapping.get(key_string.as_str()) {
                        Some(v) => {
                            proof {
                                assert(render_spec(t, m, cs) == prepend(
                                    m[key_string@],
                                    render_spec(rest, m, cs),
                                ));
                            }
                            out.append(v.as_str());
                            proof {
                                lemma_prepend_assoc(out0, m[key_string@], render_spec(rest, m, cs));
                            }
                            idx = j + 2;
                        },
                        None => {
                            proof {
                                assert(render_spec(t, m, cs) == RenderOut::Missing(
                                    trim_spec(name@),
                                ));
                            }
                            return Err(TemplateError::MissingVariable(String::from_str(trimmed)));
                        },
                    }
                }
            } else {
                proof {
                    assert(t.skip(1) =~= whole.skip(idx + 1));
                    if idx + 1 < n {
                        assert(t[1] == whole[idx + 1]);
                    }
                    assert(render_spec(t, m, cs) == prepend(
                        seq![c],
                        render_spec(whole.skip(idx + 1), m, cs),
                    ));
                    assert(whole.subrange(idx as int, idx + 1) =~= seq![c]);
                }
                out.append(tpl.substring_char(idx, idx + 1));
                proof {
                    lemma_prepend_assoc(out0, seq![c], render_spec(whole.skip(idx + 1), m, cs));
                }
                idx += 1;
            }
        }
        proof {
            assert(whole.skip(n as int).len() == 0);
            assert(out@ + Seq::<char>::empty() =~= out@);
        }
        Ok(out)
    }
}

/// The render target of an instruction: its `path` attribute, or the
/// template source itself, with a configured template extension stripped.
pub open spec fn target_of(info: TplSpec, template_ext: Option<Seq<char>>) -> Seq<char> {
    let base = match info.path {
        Option::Some(p) => p,
        Option::None => info.template,
    };
    match template_ext {
        Option::None => base,
        Option::Some(e) => {
            let suffix = seq!['.'] + e;
            if spec_ends_with(base, suffix) {
                base.take(base.len() - suffix.len())
            } else {
                base
            }
        },
    }
}

/// Renders one instruction: substitutes its variables into the template text
/// and names the file the result is written to. Returns the target path and
/// the rendered text.
pub fn replace(
    instruction: &Instruction,
    source: &str,
    template_ext: &Option<String>,
    case_sensitive: bool,
) -> (r: Result<(String, String), TemplateError>)
    ensures
        match render_spec(source@, instruction.variables@, case_sensitive) {
            RenderOut::Done(s) => r matches Ok(p) && p.0@ == target_of(
                instruction.template@,
                opt_view(*template_ext),
            ) && p.1@ == s,
            RenderOut::Unclosed => r matches Err(e) && e is Unclosed,
            RenderOut::Missing(t) => r matches Err(e) && (e matches TemplateError::MissingVariable(
                tok,
            ) && tok@ == t),
        },
{
    let base = match &instruction.template.path {
        Some(p) => p.as_str(),
        None => instruction.template.template.as_str(),
    };
    let mut target = String::from_str(base);
    match template_ext {
        None => {},
        Some(e) => {
            let mut suffix = String::from_str(".");
            suffix.append(e.as_str());
            proof {
                reveal_strlit(".");
                assert(suffix@ =~= seq!['.'] + e@);
            }
            if ends_with_str(base, suffix.as_str()) {
                let bl = base.unicode_len();
                let sl = suffix.as_str().unicode_len();
                target = String::from_str(base.substring_char(0, bl - sl));
                proof {
                    assert(target@ =~= base@.take(base@.len() - suffix@.len()));
                }
            }
        },
    }
    let tpl = BakerTemplate::new(source, case_sensitive);
    match tpl.replace(&instruction.variables) {
        Ok(rendered) => Ok((target, rendered)),
        Err(e) => Err(e),
    }
}

} // verus!
