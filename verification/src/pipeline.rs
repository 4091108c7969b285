use vstd::prelude::*;

verus! {

use crate::config::JujuConfig;
use crate::document::{parse_document, yaml_doc_of};
use crate::formatter::{
    init_state, lemma_merge_preserves_text, lemma_prun_step, merge_pieces, opt_str_view,
    pieces_text, prun, pstep, render_template, render_tok, render_toks, segs_text, segs_view,
    smap_get, smap_view, spec_parse, spec_render, svmap_get, svmap_view, FormatError, FormatErrorV,
    PStep, SegV, Segment, TokenV,
};

// ---------------------------------------------------------------------------
// Version extraction
// ---------------------------------------------------------------------------

/// The version a metadata text yields: the string field `version` at the
/// root of its document; absent when the text is absent, does not parse, or
/// has no such string field.
pub open spec fn spec_version_of(meta: Option<Seq<char>>) -> Option<Seq<char>> {
    match meta {
        None => None,
        Some(t) => match yaml_doc_of(t) {
            None => None,
            Some(d) => d.spec_get_str("version"@),
        },
    }
}

/// Extracts the version from the metadata text, if any.
pub fn extract_version(meta_text: &Option<String>) -> (r: Option<String>)
    ensures
        opt_str_view(r) == spec_version_of(opt_str_view(*meta_text)),
{
    match meta_text {
        None => None,
        Some(t) => match parse_document(t.as_str()) {
            None => None,
            Some(d) => match d.get_str("version") {
                Some(s) => Some(s.clone()),
                None => None,
            },
        },
    }
}

// ---------------------------------------------------------------------------
// Active controller/model resolution
// ---------------------------------------------------------------------------

/// The active controller/model pair the two registry texts yield, through
/// the short-circuiting chain: controllers document -> `current-controller`
/// -> models document -> `controllers` -> that controller -> `current-model`.
/// A failure at any step, or an absent text, collapses to absence; the pair
/// is never partial.
pub open spec fn spec_active_model(ctr: Option<Seq<char>>, mdl: Option<Seq<char>>) -> Option<
    (Seq<char>, Seq<char>),
> {
    match ctr {
        None => None,
        Some(ct) => match yaml_doc_of(ct) {
            None => None,
            Some(cd) => match cd.spec_get_str("current-controller"@) {
                None => None,
                Some(c) => match mdl {
                    None => None,
                    Some(mt) => match yaml_doc_of(mt) {
                        None => None,
                        Some(md) => match md.spec_get("controllers"@) {
                            None => None,
                            Some(ctrs) => match ctrs.spec_get(c) {
                                None => None,
                                Some(entry) => match entry.spec_get_str("current-model"@) {
                                    None => None,
                                    Some(m) => Some((c, m)),
                                },
                            },
                        },
                    },
                },
            },
        },
    }
}

/// Resolves the active controller and model from the two registry texts;
/// `None` unless every step of the chain succeeds.
pub fn resolve_active_model(controllers_text: &Option<String>, models_text: &Option<String>) -> (r:
    Option<(String, String)>)
    ensures
        match r {
            Some(p) => spec_active_model(
                opt_str_view(*controllers_text),
                opt_str_view(*models_text),
            ) == Some((p.0@, p.1@)),
            None => spec_active_model(
                opt_str_view(*controllers_text),
                opt_str_view(*models_text),
            ) is None,
        },
{
    match controllers_text {
        None => None,
        Some(ct) => match parse_document(ct.as_str()) {
            None => None,
            Some(cd) => match cd.get_str("current-controller") {
                None => None,
                Some(c) => {
                    let c = c.clone();
                    match models_text {
                        None => None,
                        Some(mt) => match parse_document(mt.as_str()) {
                            None => None,
                            Some(md) => match md.get("controllers") {
                                None => None,
                                Some(ctrs) => match ctrs.get(c.as_str()) {
                                    None => None,
                                    Some(entry) => match entry.get_str("current-model") {
                                        None => None,
                                        Some(m) => Some((c, m.clone())),
                                    },
                                },
                            },
                        },
                    }
                },
            },
        },
    }
}

/// The parenthetical rendered for an active pair: a space, then
/// `(controller:model)`.
pub open spec fn spec_suffix(c: Seq<char>, m: Seq<char>) -> Seq<char> {
    " ("@ + c + ":"@ + m + ")"@
}

/// Builds the model suffix ` (controller:model)`.
pub fn model_suffix(c: &str, m: &str) -> (r: String)
    ensures
        r@ == spec_suffix(c@, m@),
{
    let mut s = String::from_str(" (");
    s.append(c);
    s.append(":");
    s.append(m);
    s.append(")");
    s
}

// ---------------------------------------------------------------------------
// Segment assembly
// ---------------------------------------------------------------------------

/// The meta table handed to the formatter: the symbol alone.
pub open spec fn spec_metas(symbol: Seq<char>) -> Seq<(Seq<char>, Seq<char>)> {
    seq![("symbol"@, symbol)]
}

/// The variable table handed to the formatter: the version, always with a
/// value, and the model suffix, with one only when an active pair exists.
pub open spec fn spec_vars(version: Seq<char>, model: Option<Seq<char>>) -> Seq<
    (Seq<char>, Option<Seq<char>>),
> {
    seq![("version"@, Some(version)), ("model"@, model)]
}

/// The style table handed to the formatter: the one configured style.
pub open spec fn spec_styles(style: Seq<char>) -> Seq<(Seq<char>, Seq<char>)> {
    seq![("style"@, style)]
}

/// The value handed to the formatter for the model placeholder: the suffix
/// when an active pair exists, and no value otherwise.
pub open spec fn spec_model_value(ctr: Option<Seq<char>>, mdl: Option<Seq<char>>) -> Option<
    Seq<char>,
> {
    match spec_active_model(ctr, mdl) {
        Some(p) => Some(spec_suffix(p.0, p.1)),
        None => None,
    }
}

/// The whole pipeline, as a function of the configuration and the three
/// document texts: no output when disabled, when no version is found, or
/// when the template fails to render; otherwise the rendered segments.
pub open spec fn spec_module(
    format: Seq<char>,
    symbol: Seq<char>,
    style: Seq<char>,
    disabled: bool,
    meta: Option<Seq<char>>,
    ctr: Option<Seq<char>>,
    mdl: Option<Seq<char>>,
) -> Option<Seq<SegV>> {
    if disabled {
        None
    } else {
        match spec_version_of(meta) {
            None => None,
            Some(v) => {
                let model = spec_model_value(ctr, mdl);
                match spec_render(format, spec_metas(symbol), spec_vars(v, model), spec_styles(style)) {
                    Ok(segs) => Some(segs),
                    Err(_) => None,
                }
            },
        }
    }
}

/// Assembles the status segment from the configuration and the raw texts of
/// the three documents (`None` standing for a file that is absent or
/// unreadable, or for an unset home directory), reporting a render failure
/// to the caller so the host can log it. `Ok(None)` means the segment is
/// suppressed quietly: disabled, or no version found. `Ok(Some(segments))`
/// means it rendered. `Err` means a version was found and enabled rendering
/// was attempted, but the template failed structurally; nothing is emitted.
pub fn module_or_error(
    config: &JujuConfig,
    meta_text: &Option<String>,
    controllers_text: &Option<String>,
    models_text: &Option<String>,
) -> (r: Result<Option<Vec<Segment>>, FormatError>)
    ensures
        match r {
            Ok(Some(segs)) => spec_module(
                config.format@,
                config.symbol@,
                config.style@,
                config.disabled,
                opt_str_view(*meta_text),
                opt_str_view(*controllers_text),
                opt_str_view(*models_text),
            ) == Some(segs_view(segs@)),
            Ok(None) => config.disabled || spec_version_of(opt_str_view(*meta_text)) is None,
            Err(e) => {
                &&& !config.disabled
                &&& spec_version_of(opt_str_view(*meta_text)) matches Some(v) && spec_render(
                    config.format@,
                    spec_metas(config.symbol@),
                    spec_vars(
                        v,
                        spec_model_value(
                            opt_str_view(*controllers_text),
                            opt_str_view(*models_text),
                        ),
                    ),
                    spec_styles(config.style@),
                ) == Err::<Seq<SegV>, FormatErrorV>(e@)
            },
        },
        r matches Ok(Some(_)) <==> spec_module(
            config.format@,
            config.symbol@,
            config.style@,
            config.disabled,
            opt_str_view(*meta_text),
            opt_str_view(*controllers_text),
            opt_str_view(*models_text),
        ) is Some,
{
    if config.disabled {
        return Ok(None);
    }
    let version = match extract_version(meta_text) {
        Some(v) => v,
        None => {
            return Ok(None);
        },
    };
    let model: Option<String> = match resolve_active_model(controllers_text, models_text) {
        Some(p) => Some(model_suffix(p.0.as_str(), p.1.as_str())),
        None => None,
    };
    let ghost gversion = version@;
    let ghost gmodel = opt_str_view(model);
    let mut metas: Vec<(String, String)> = Vec::new();
    metas.push((String::from_str("symbol"), String::from_str(config.symbol)));
    let mut vars: Vec<(String, Option<String>)> = Vec::new();
    vars.push((String::from_str("version"), Some(version)));
    vars.push((String::from_str("model"), model));
    let mut styles: Vec<(String, String)> = Vec::new();
    styles.push((String::from_str("style"), String::from_str(config.style)));
    proof {
        assert(smap_view(metas@) =~= spec_metas(config.symbol@));
        assert(svmap_view(vars@) =~= spec_vars(gversion, gmodel));
        assert(smap_view(styles@) =~= spec_styles(config.style@));
    }
    match render_template(config.format, &metas, &vars, &styles) {
        Ok(segs) => Ok(Some(segs)),
        Err(e) => Err(e),
    }
}

/// Assembles the status segment, folding a render failure into `None`: the
/// styled segments, or `None` when the segment is suppressed (disabled, no
/// version found, or a template error).
pub fn module(
    config: &JujuConfig,
    meta_text: &Option<String>,
    controllers_text: &Option<String>,
    models_text: &Option<String>,
) -> (r: Option<Vec<Segment>>)
    ensures
        match r {
            Some(segs) => spec_module(
                config.format@,
                config.symbol@,
                config.style@,
                config.disabled,
                opt_str_view(*meta_text),
                opt_str_view(*controllers_text),
                opt_str_view(*models_text),
            ) == Some(segs_view(segs@)),
            None => spec_module(
                config.format@,
                config.symbol@,
                config.style@,
                config.disabled,
                opt_str_view(*meta_text),
                opt_str_view(*controllers_text),
                opt_str_view(*models_text),
            ) is None,
        },
        config.disabled ==> r is None,
        spec_version_of(opt_str_view(*meta_text)) is None ==> r is None,
{
    match module_or_error(config, meta_text, controllers_text, models_text) {
        Ok(out) => out,
        Err(_) => None,
    }
}

// ---------------------------------------------------------------------------
// Laws
// ---------------------------------------------------------------------------

/// The pipeline is deterministic: its output is a function of the
/// configuration and the three texts alone, so two renders over equal
/// inputs yield identical segment sequences. The executable `module` is
/// pinned to `spec_module` by its contract, so repeated invocations agree.
pub proof fn lemma_module_deterministic(
    format1: Seq<char>,
    symbol1: Seq<char>,
    style1: Seq<char>,
    disabled1: bool,
    meta1: Option<Seq<char>>,
    ctr1: Option<Seq<char>>,
    mdl1: Option<Seq<char>>,
    format2: Seq<char>,
    symbol2: Seq<char>,
    style2: Seq<char>,
    disabled2: bool,
    meta2: Option<Seq<char>>,
    ctr2: Option<Seq<char>>,
    mdl2: Option<Seq<char>>,
)
    ensures
        (format1 == format2 && symbol1 == symbol2 && style1 == style2 && disabled1 == disabled2
            && meta1 == meta2 && ctr1 == ctr2 && mdl1 == mdl2) ==> spec_module(
            format1,
            symbol1,
            style1,
            disabled1,
            meta1,
            ctr1,
            mdl1,
        ) == spec_module(format2, symbol2, style2, disabled2, meta2, ctr2, mdl2),
{
}

/// A text that does not parse behaves exactly like an absent file, in each
/// of the three positions: the remaining inputs being equal, the output is
/// identical.
pub proof fn lemma_malformed_like_absent(
    format: Seq<char>,
    symbol: Seq<char>,
    style: Seq<char>,
    disabled: bool,
    t: Seq<char>,
    meta: Option<Seq<char>>,
    ctr: Option<Seq<char>>,
    mdl: Option<Seq<char>>,
)
    ensures
        yaml_doc_of(t) is None ==> spec_module(format, symbol, style, disabled, Some(t), ctr, mdl)
            == spec_module(format, symbol, style, disabled, None, ctr, mdl),
        yaml_doc_of(t) is None ==> spec_module(format, symbol, style, disabled, meta, Some(t), mdl)
            == spec_module(format, symbol, style, disabled, meta, None, mdl),
        yaml_doc_of(t) is None ==> spec_module(format, symbol, style, disabled, meta, ctr, Some(t))
            == spec_module(format, symbol, style, disabled, meta, ctr, None),
{
}

/// The token shape of the default template: `via `, then one styled group
/// holding the symbol, version and model placeholders, then a space.
pub open spec fn default_tokens() -> Seq<TokenV> {
    seq![
        TokenV::Text(seq!['v']),
        TokenV::Text(seq!['i']),
        TokenV::Text(seq!['a']),
        TokenV::Text(seq![' ']),
        TokenV::Group(
            seq![TokenV::Var("symbol"@), TokenV::Var("version"@), TokenV::Var("model"@)],
            "style"@,
        ),
        TokenV::Text(seq![' ']),
    ]
}

/// The default template parses to `default_tokens()`.
#[verifier::rlimit(100)]
pub proof fn lemma_default_template_tokens()
    ensures
        spec_parse("via [$symbol$version$model]($style) "@) == Ok::<
            Seq<TokenV>,
            FormatErrorV,
        >(default_tokens()),
{
    let t = "via [$symbol$version$model]($style) "@;
    reveal_strlit("via [$symbol$version$model]($style) ");
    reveal_strlit("symbol");
    reveal_strlit("version");
    reveal_strlit("model");
    reveal_strlit("style");
    assert(t.len() == 36);
    assert(t.take(0) =~= Seq::<char>::empty());
    assert(prun(t.take(0)) == PStep::Going(init_state()));
    let st0 = init_state();
    lemma_prun_step(t, 0);
    assert(pstep(st0, t[0]) is Going);
    let st1 = pstep(st0, t[0])->Going_0;
    assert(prun(t.take(1)) == PStep::Going(st1));
    lemma_prun_step(t, 1);
    assert(pstep(st1, t[1]) is Going);
    let st2 = pstep(st1, t[1])->Going_0;
    assert(prun(t.take(2)) == PStep::Going(st2));
    lemma_prun_step(t, 2);
    assert(pstep(st2, t[2]) is Going);
    let st3 = pstep(st2, t[2])->Going_0;
    assert(prun(t.take(3)) == PStep::Going(st3));
    lemma_prun_step(t, 3);
    assert(pstep(st3, t[3]) is Going);
    let st4 = pstep(st3, t[3])->Going_0;
    assert(prun(t.take(4)) == PStep::Going(st4));
    lemma_prun_step(t, 4);
    assert(pstep(st4, t[4]) is Going);
    let st5 = pstep(st4, t[4])->Going_0;
    assert(prun(t.take(5)) == PStep::Going(st5));
    lemma_prun_step(t, 5);
    assert(pstep(st5, t[5]) is Going);
    let st6 = pstep(st5, t[5])->Going_0;
    assert(prun(t.take(6)) == PStep::Going(st6));
    lemma_prun_step(t, 6);
    assert(pstep(st6, t[6]) is Going);
    let st7 = pstep(st6, t[6])->Going_0;
    assert(prun(t.take(7)) == PStep::Going(st7));
    lemma_prun_step(t, 7);
    assert(pstep(st7, t[7]) is Going);
    let st8 = pstep(st7, t[7])->Going_0;
    assert(prun(t.take(8)) == PStep::Going(st8));
    lemma_prun_step(t, 8);
    assert(pstep(st8, t[8]) is Going);
    let st9 = pstep(st8, t[8])->Going_0;
    assert(prun(t.take(9)) == PStep::Going(st9));
    lemma_prun_step(t, 9);
    assert(pstep(st9, t[9]) is Going);
    let st10 = pstep(st9, t[9])->Going_0;
    assert(prun(t.take(10)) == PStep::Going(st10));
    lemma_prun_step(t, 10);
    assert(pstep(st10, t[10]) is Going);
    let st11 = pstep(st10, t[10])->Going_0;
    assert(prun(t.take(11)) == PStep::Going(st11));
    lemma_prun_step(t, 11);
    assert(pstep(st11, t[11]) is Going);
    let st12 = pstep(st11, t[11])->Going_0;
    assert(prun(t.take(12)) == PStep::Going(st12));
    lemma_prun_step(t, 12);
    assert(pstep(st12, t[12]) is Going);
    let st13 = pstep(st12, t[12])->Going_0;
    assert(prun(t.take(13)) == PStep::Going(st13));
    lemma_prun_step(t, 13);
    assert(pstep(st13, t[13]) is Going);
    let st14 = pstep(st13, t[13])->Going_0;
    assert(prun(t.take(14)) == PStep::Going(st14));
    lemma_prun_step(t, 14);
    assert(pstep(st14, t[14]) is Going);
    let st15 = pstep(st14, t[14])->Going_0;
    assert(prun(t.take(15)) == PStep::Going(st15));
    lemma_prun_step(t, 15);
    assert(pstep(st15, t[15]) is Going);
    let st16 = pstep(st15, t[15])->Going_0;
    assert(prun(t.take(16)) == PStep::Going(st16));
    lemma_prun_step(t, 16);
    assert(pstep(st16, t[16]) is Going);
    let st17 = pstep(st16, t[16])->Going_0;
    assert(prun(t.take(17)) == PStep::Going(st17));
    lemma_prun_step(t, 17);
    assert(pstep(st17, t[17]) is Going);
    let st18 = pstep(st17, t[17])->Going_0;
    assert(prun(t.take(18)) == PStep::Going(st18));
    lemma_prun_step(t, 18);
    assert(pstep(st18, t[18]) is Going);
    let st19 = pstep(st18, t[18])->Going_0;
    assert(prun(t.take(19)) == PStep::Going(st19));
    lemma_prun_step(t, 19);
    assert(pstep(st19, t[19]) is Going);
    let st20 = pstep(st19, t[19])->Going_0;
    assert(prun(t.take(20)) == PStep::Going(st20));
    lemma_prun_step(t, 20);
    assert(pstep(st20, t[20]) is Going);
    let st21 = pstep(st20, t[20])->Going_0;
    assert(prun(t.take(21)) == PStep::Going(st21));
    lemma_prun_step(t, 21);
    assert(pstep(st21, t[21]) is Going);
    let st22 = pstep(st21, t[21])->Going_0;
    assert(prun(t.take(22)) == PStep::Going(st22));
    lemma_prun_step(t, 22);
    assert(pstep(st22, t[22]) is Going);
    let st23 = pstep(st22, t[22])->Going_0;
    assert(prun(t.take(23)) == PStep::Going(st23));
    lemma_prun_step(t, 23);
    assert(pstep(st23, t[23]) is Going);
    let st24 = pstep(st23, t[23])->Going_0;
    assert(prun(t.take(24)) == PStep::Going(st24));
    lemma_prun_step(t, 24);
    assert(pstep(st24, t[24]) is Going);
    let st25 = pstep(st24, t[24])->Going_0;
    assert(prun(t.take(25)) == PStep::Going(st25));
    lemma_prun_step(t, 25);
    assert(pstep(st25, t[25]) is Going);
    let st26 = pstep(st25, t[25])->Going_0;
    assert(prun(t.take(26)) == PStep::Going(st26));
    lemma_prun_step(t, 26);
    assert(pstep(st26, t[26]) is Going);
    let st27 = pstep(st26, t[26])->Going_0;
    assert(prun(t.take(27)) == PStep::Going(st27));
    lemma_prun_step(t, 27);
    assert(pstep(st27, t[27]) is Going);
    let st28 = pstep(st27, t[27])->Going_0;
    assert(prun(t.take(28)) == PStep::Going(st28));
    lemma_prun_step(t, 28);
    assert(pstep(st28, t[28]) is Going);
    let st29 = pstep(st28, t[28])->Going_0;
    assert(prun(t.take(29)) == PStep::Going(st29));
    lemma_prun_step(t, 29);
    assert(pstep(st29, t[29]) is Going);
    let st30 = pstep(st29, t[29])->Going_0;
    assert(prun(t.take(30)) == PStep::Going(st30));
    lemma_prun_step(t, 30);
    assert(pstep(st30, t[30]) is Going);
    let st31 = pstep(st30, t[30])->Going_0;
    assert(prun(t.take(31)) == PStep::Going(st31));
    lemma_prun_step(t, 31);
    assert(pstep(st31, t[31]) is Going);
    let st32 = pstep(st31, t[31])->Going_0;
    assert(prun(t.take(32)) == PStep::Going(st32));
    lemma_prun_step(t, 32);
    assert(pstep(st32, t[32]) is Going);
    let st33 = pstep(st32, t[32])->Going_0;
    assert(prun(t.take(33)) == PStep::Going(st33));
    lemma_prun_step(t, 33);
    assert(pstep(st33, t[33]) is Going);
    let st34 = pstep(st33, t[33])->Going_0;
    assert(prun(t.take(34)) == PStep::Going(st34));
    lemma_prun_step(t, 34);
    assert(pstep(st34, t[34]) is Going);
    let st35 = pstep(st34, t[34])->Going_0;
    assert(prun(t.take(35)) == PStep::Going(st35));
    lemma_prun_step(t, 35);
    assert(pstep(st35, t[35]) is Going);
    let st36 = pstep(st35, t[35])->Going_0;
    assert(prun(t.take(36)) == PStep::Going(st36));
    assert(t.take(36) =~= t);
    assert(prun(t) == PStep::Going(st36));
    assert(st36.mode is MText);
    assert(st36.stack.len() == 1);
    assert(spec_parse(t) == Ok::<Seq<TokenV>, FormatErrorV>(st36.stack[0]));
    let toks = st36.stack[0];
    assert(toks.len() == 6);
    assert(toks[0] == TokenV::Text(seq!['v']));
    assert(toks[1] == TokenV::Text(seq!['i']));
    assert(toks[2] == TokenV::Text(seq!['a']));
    assert(toks[3] == TokenV::Text(seq![' ']));
    assert(toks[5] == TokenV::Text(seq![' ']));
    let g = toks[4];
    assert(g is Group);
    let inner = g->Group_0;
    let sty = g->Group_1;
    assert(sty =~= "style"@);
    assert(inner.len() == 3);
    assert(inner[0] is Var && inner[0]->Var_0 =~= "symbol"@);
    assert(inner[1] is Var && inner[1]->Var_0 =~= "version"@);
    assert(inner[2] is Var && inner[2]->Var_0 =~= "model"@);
    assert(inner =~~= seq![
        TokenV::Var("symbol"@),
        TokenV::Var("version"@),
        TokenV::Var("model"@),
    ]);
    assert(g =~~= TokenV::Group(
        seq![TokenV::Var("symbol"@), TokenV::Var("version"@), TokenV::Var("model"@)],
        "style"@,
    ));
    assert(toks =~~= default_tokens());
}

/// The default template's text.
pub open spec fn default_format() -> Seq<char> {
    "via [$symbol$version$model]($style) "@
}

/// The pieces the default token shape resolves to, one per token, in
/// template order: the four text characters, then the symbol, the version
/// and the model suffix under the configured style, then a space. The model
/// piece is empty when no suffix value exists.
pub open spec fn default_pieces(
    symbol: Seq<char>,
    style: Seq<char>,
    v: Seq<char>,
    model: Option<Seq<char>>,
) -> Seq<(Seq<char>, Option<Seq<char>>)> {
    seq![
        (seq!['v'], None),
        (seq!['i'], None),
        (seq!['a'], None),
        (seq![' '], None),
        (symbol, Some(style)),
        (v, Some(style)),
        (
            match model {
                Some(x) => x,
                None => Seq::<char>::empty(),
            },
            Some(style),
        ),
        (seq![' '], None),
    ]
}

/// Rendering the default token shape yields exactly `default_pieces`.
pub proof fn lemma_default_tokens_render(
    symbol: Seq<char>,
    style: Seq<char>,
    v: Seq<char>,
    model: Option<Seq<char>>,
)
    ensures
        render_toks(default_tokens(), None, spec_metas(symbol), spec_vars(v, model), spec_styles(style))
            == Ok::<Seq<(Seq<char>, Option<Seq<char>>)>, FormatErrorV>(
            default_pieces(symbol, style, v, model),
        ),
{
    reveal_strlit("symbol");
    reveal_strlit("version");
    reveal_strlit("model");
    reveal_strlit("style");
    reveal_with_fuel(smap_get, 3);
    reveal_with_fuel(svmap_get, 3);
    let mm = spec_metas(symbol);
    let vv = spec_vars(v, model);
    let ss = spec_styles(style);
    let msfx = (match model {
        Some(x) => x,
        None => Seq::<char>::empty(),
    });
    let ta = TokenV::Text(seq!['v']);
    let tb = TokenV::Text(seq!['i']);
    let tc = TokenV::Text(seq!['a']);
    let td = TokenV::Text(seq![' ']);
    let gvars = seq![TokenV::Var("symbol"@), TokenV::Var("version"@), TokenV::Var("model"@)];
    let tg = TokenV::Group(gvars, "style"@);
    let te = TokenV::Text(seq![' ']);
    let ts = default_tokens();
    assert(ts == seq![ta, tb, tc, td, tg, te]);

    // the variable lookups
    assert(mm.skip(1) =~= Seq::<(Seq<char>, Seq<char>)>::empty());
    assert(vv.skip(1) =~= seq![("model"@, model)]);
    assert(vv.skip(1).skip(1) =~= Seq::<(Seq<char>, Option<Seq<char>>)>::empty());
    assert("symbol"@.len() != "version"@.len());
    assert("symbol"@.len() != "model"@.len());
    assert("version"@.len() != "model"@.len());
    assert(smap_get(mm, "symbol"@) == Some(symbol));
    assert(smap_get(mm, "version"@) is None);
    assert(smap_get(mm, "model"@) is None);
    assert(svmap_get(vv, "version"@) == Some(Some(v)));
    assert(svmap_get(vv, "model"@) == Some(model));

    // the group body, token by token
    let ctx = Some(style);
    let g2 = gvars.drop_last();
    let g1 = g2.drop_last();
    assert(g1.drop_last() =~= Seq::<TokenV>::empty());
    assert(render_toks(g1.drop_last(), ctx, mm, vv, ss) == Ok::<
        Seq<(Seq<char>, Option<Seq<char>>)>,
        FormatErrorV,
    >(Seq::empty()));
    assert(g1.last() == TokenV::Var("symbol"@));
    assert(g2.last() == TokenV::Var("version"@));
    assert(gvars.last() == TokenV::Var("model"@));
    assert(render_tok(TokenV::Var("symbol"@), ctx, mm, vv, ss) == Ok::<
        Seq<(Seq<char>, Option<Seq<char>>)>,
        FormatErrorV,
    >(seq![(symbol, ctx)]));
    assert(render_tok(TokenV::Var("version"@), ctx, mm, vv, ss) == Ok::<
        Seq<(Seq<char>, Option<Seq<char>>)>,
        FormatErrorV,
    >(seq![(v, ctx)]));
    assert(render_tok(TokenV::Var("model"@), ctx, mm, vv, ss) == Ok::<
        Seq<(Seq<char>, Option<Seq<char>>)>,
        FormatErrorV,
    >(seq![(msfx, ctx)]));
    let e1 = seq![(symbol, ctx)];
    assert(render_toks(g1, ctx, mm, vv, ss) is Ok);
    assert(render_toks(g1, ctx, mm, vv, ss)->Ok_0 =~= e1);
    let e2 = seq![(symbol, ctx), (v, ctx)];
    assert(render_toks(g2, ctx, mm, vv, ss) is Ok);
    assert(render_toks(g2, ctx, mm, vv, ss)->Ok_0 =~= e2);
    let e3 = seq![(symbol, ctx), (v, ctx), (msfx, ctx)];
    assert(render_toks(gvars, ctx, mm, vv, ss) is Ok);
    assert(render_toks(gvars, ctx, mm, vv, ss)->Ok_0 =~= e3);

    // the style lookup and the group token itself
    assert(smap_get(ss, "style"@) == Some(style));
    assert(render_tok(tg, None, mm, vv, ss) == render_toks(gvars, ctx, mm, vv, ss));

    // the top level, token by token
    let s5 = ts.drop_last();
    let s4 = s5.drop_last();
    let s3 = s4.drop_last();
    let s2 = s3.drop_last();
    let s1 = s2.drop_last();
    assert(s1.drop_last() =~= Seq::<TokenV>::empty());
    assert(render_toks(s1.drop_last(), None, mm, vv, ss) == Ok::<
        Seq<(Seq<char>, Option<Seq<char>>)>,
        FormatErrorV,
    >(Seq::empty()));
    assert(s1.last() == ta);
    assert(s2.last() == tb);
    assert(s3.last() == tc);
    assert(s4.last() == td);
    assert(s5.last() == tg);
    assert(ts.last() == te);
    assert(render_tok(ta, None, mm, vv, ss) == Ok::<
        Seq<(Seq<char>, Option<Seq<char>>)>,
        FormatErrorV,
    >(seq![(seq!['v'], None)]));
    assert(render_tok(tb, None, mm, vv, ss) == Ok::<
        Seq<(Seq<char>, Option<Seq<char>>)>,
        FormatErrorV,
    >(seq![(seq!['i'], None)]));
    assert(render_tok(tc, None, mm, vv, ss) == Ok::<
        Seq<(Seq<char>, Option<Seq<char>>)>,
        FormatErrorV,
    >(seq![(seq!['a'], None)]));
    assert(render_tok(td, None, mm, vv, ss) == Ok::<
        Seq<(Seq<char>, Option<Seq<char>>)>,
        FormatErrorV,
    >(seq![(seq![' '], None)]));
    let f1: Seq<(Seq<char>, Option<Seq<char>>)> = seq![(seq!['v'], None)];
    assert(render_toks(s1, None, mm, vv, ss) is Ok);
    assert(render_toks(s1, None, mm, vv, ss)->Ok_0 =~= f1);
    let f2 = f1.push((seq!['i'], None));
    assert(render_toks(s2, None, mm, vv, ss) is Ok);
    assert(render_toks(s2, None, mm, vv, ss)->Ok_0 =~= f2);
    let f3 = f2.push((seq!['a'], None));
    assert(render_toks(s3, None, mm, vv, ss) is Ok);
    assert(render_toks(s3, None, mm, vv, ss)->Ok_0 =~= f3);
    let f4 = f3.push((seq![' '], None));
    assert(render_toks(s4, None, mm, vv, ss) is Ok);
    assert(render_toks(s4, None, mm, vv, ss)->Ok_0 =~= f4);
    let f5 = f4 + e3;
    assert(render_toks(s5, None, mm, vv, ss) is Ok);
    assert(render_toks(s5, None, mm, vv, ss)->Ok_0 =~= f5);
    let f6 = f5.push((seq![' '], None));
    assert(render_toks(ts, None, mm, vv, ss) is Ok);
    assert(render_toks(ts, None, mm, vv, ss)->Ok_0 =~= f6);
    let expected: Seq<(Seq<char>, Option<Seq<char>>)> = seq![
        (seq!['v'], None),
        (seq!['i'], None),
        (seq!['a'], None),
        (seq![' '], None),
        (symbol, Some(style)),
        (v, Some(style)),
        (msfx, Some(style)),
        (seq![' '], None),
    ];
    assert(f6 =~= expected);
    assert(expected == default_pieces(symbol, style, v, model));
    assert(render_toks(ts, None, mm, vv, ss) == Ok::<
        Seq<(Seq<char>, Option<Seq<char>>)>,
        FormatErrorV,
    >(default_pieces(symbol, style, v, model)));
}

/// The parenthetical text an optional active pair contributes: the model
/// suffix, or nothing.
pub open spec fn suffix_text(am: Option<(Seq<char>, Seq<char>)>) -> Seq<char> {
    match am {
        Some(p) => spec_suffix(p.0, p.1),
        None => Seq::<char>::empty(),
    }
}

/// With the default template, an enabled configuration and a version found,
/// the pipeline produces output, and its text is exactly `via `, the symbol,
/// the version, the model parenthetical when the chain succeeds and nothing
/// in its place when it fails, and a trailing space.
pub proof fn lemma_default_output_text(
    symbol: Seq<char>,
    style: Seq<char>,
    v: Seq<char>,
    meta: Option<Seq<char>>,
    ctr: Option<Seq<char>>,
    mdl: Option<Seq<char>>,
)
    ensures
        spec_version_of(meta) == Some(v) ==> spec_module(
            default_format(),
            symbol,
            style,
            false,
            meta,
            ctr,
            mdl,
        ) is Some,
        spec_version_of(meta) == Some(v) ==> segs_text(
            spec_module(default_format(), symbol, style, false, meta, ctr, mdl)->Some_0,
        ) == "via "@ + symbol + v + suffix_text(spec_active_model(ctr, mdl)) + " "@,
{
    if spec_version_of(meta) == Some(v) {
        let model = match spec_active_model(ctr, mdl) {
            Some(p) => Some(spec_suffix(p.0, p.1)),
            None => None,
        };
        let msfx = suffix_text(spec_active_model(ctr, mdl));
        lemma_default_template_tokens();
        lemma_default_tokens_render(symbol, style, v, model);
        let ps = default_pieces(symbol, style, v, model);
        assert(spec_render(default_format(), spec_metas(symbol), spec_vars(v, model), spec_styles(style))
            == Ok::<Seq<SegV>, FormatErrorV>(merge_pieces(ps)));
        lemma_merge_preserves_text(ps);
        // spell the pieces out
        reveal_strlit("via ");
        reveal_with_fuel(pieces_text, 10);
        let p7 = ps.drop_last();
        let p6 = p7.drop_last();
        let p5 = p6.drop_last();
        let p4 = p5.drop_last();
        let p3 = p4.drop_last();
        let p2 = p3.drop_last();
        let p1 = p2.drop_last();
        assert(p1.drop_last() =~= Seq::<(Seq<char>, Option<Seq<char>>)>::empty());
        assert(pieces_text(p1) =~= seq!['v']);
        assert(pieces_text(p2) =~= seq!['v', 'i']);
        assert(pieces_text(p3) =~= seq!['v', 'i', 'a']);
        assert(pieces_text(p4) =~= seq!['v', 'i', 'a', ' ']);
        assert(pieces_text(p4) =~= "via "@);
        assert(ps.last().0 == seq![' ']);
        assert(p5.last().0 == symbol);
        assert(p6.last().0 == v);
        assert(p7.last().0 == msfx);
        assert(pieces_text(p5) == pieces_text(p4) + symbol);
        assert(pieces_text(p6) == pieces_text(p5) + v);
        assert(pieces_text(p7) == pieces_text(p6) + msfx);
        assert(pieces_text(ps) == pieces_text(p7) + seq![' ']);
        assert(seq![' '] =~= " "@) by {
            reveal_strlit(" ");
        }
        assert(pieces_text(ps) =~= "via "@ + symbol + v + msfx + " "@);
        assert(segs_text(merge_pieces(ps)) == pieces_text(ps));
    }
}

/// When the controller/model chain fails and a version `V` is found, the
/// output under the default template is exactly `via ` + symbol + `V` + ` `:
/// it contains `V` and no controller/model parenthetical at all.
pub proof fn lemma_version_without_model(
    symbol: Seq<char>,
    style: Seq<char>,
    v: Seq<char>,
    meta: Option<Seq<char>>,
    ctr: Option<Seq<char>>,
    mdl: Option<Seq<char>>,
)
    ensures
        (spec_version_of(meta) == Some(v) && spec_active_model(ctr, mdl) is None) ==> spec_module(
            default_format(),
            symbol,
            style,
            false,
            meta,
            ctr,
            mdl,
        ) is Some,
        (spec_version_of(meta) == Some(v) && spec_active_model(ctr, mdl) is None) ==> segs_text(
            spec_module(default_format(), symbol, style, false, meta, ctr, mdl)->Some_0,
        ) == "via "@ + symbol + v + " "@,
{
    lemma_default_output_text(symbol, style, v, meta, ctr, mdl);
    if spec_version_of(meta) == Some(v) && spec_active_model(ctr, mdl) is None {
        assert(("via "@ + symbol + v + Seq::<char>::empty()) =~= ("via "@ + symbol + v));
    }
}

/// When the chain succeeds with controller `C` and model `M` and a version
/// `V` is found, the output under the default template is exactly
/// `via ` + symbol + `V` + ` (C:M)` + ` `: the literal `(C:M)` follows the
/// version text immediately, with no extra characters but the separating
/// space.
pub proof fn lemma_version_with_model(
    symbol: Seq<char>,
    style: Seq<char>,
    v: Seq<char>,
    c: Seq<char>,
    m: Seq<char>,
    meta: Option<Seq<char>>,
    ctr: Option<Seq<char>>,
    mdl: Option<Seq<char>>,
)
    ensures
        (spec_version_of(meta) == Some(v) && spec_active_model(ctr, mdl) == Some((c, m)))
            ==> spec_module(default_format(), symbol, style, false, meta, ctr, mdl) is Some,
        (spec_version_of(meta) == Some(v) && spec_active_model(ctr, mdl) == Some((c, m)))
            ==> segs_text(spec_module(default_format(), symbol, style, false, meta, ctr, mdl)->Some_0)
            == "via "@ + symbol + v + spec_suffix(c, m) + " "@,
{
    lemma_default_output_text(symbol, style, v, meta, ctr, mdl);
}

} // verus!
