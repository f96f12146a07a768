//! What holds of setting Codex up: what the adapter's blocks say, which lines of a config they
//! take the place of, and which provider, model and key they are for.
use vstd::prelude::*;

use crate::error::ErrorView;
use crate::http::codex;
use crate::json::JsonView;
use crate::text;

verus! {

/// The keys that the adapter sets at the root of a config.
pub open spec fn set_keys() -> Seq<Seq<char>> {
    seq![
        "model_provider"@,
        "model"@,
        "review_model"@,
        "model_reasoning_effort"@,
        "disable_response_storage"@,
        "network_access"@,
        "model_context_window"@,
        "model_auto_compact_token_limit"@,
    ]
}

/// A line at the root of a config that sets one of the adapter's keys is taken out; the other
/// lines stay.
pub proof fn lemma_root_line(lines: Seq<Seq<char>>, k: int, value: Seq<char>)
    requires
        0 <= k < 8,
        codex::in_root(lines),
    ensures
        codex::kept_lines(lines.push(set_keys()[k] + " = "@ + value)) == codex::kept_lines(lines),
        codex::kept_lines(lines.push(set_keys()[k] + "="@ + value)) == codex::kept_lines(lines),
{
    reveal_strlit(" = ");
    reveal_strlit("=");
    reveal_strlit("[");
    reveal_strlit("model_provider");
    reveal_strlit("model");
    reveal_strlit("review_model");
    reveal_strlit("model_reasoning_effort");
    reveal_strlit("disable_response_storage");
    reveal_strlit("network_access");
    reveal_strlit("model_context_window");
    reveal_strlit("model_auto_compact_token_limit");
    let key = set_keys()[k];
    let heads = seq!['m', 'm', 'r', 'm', 'd', 'n', 'm', 'm'];
    assert(key[0] == heads[k] && heads[k] != '[' && !text::whitespace(heads[k]));
    assert(codex::root_keys()[k] == key);
    let a = key + " = "@ + value;
    let b = key + "="@ + value;
    assert(text::trimmed_start(a) == a && text::trimmed_start(b) == b);
    assert(a.take(key.len() as int) =~= key && b.take(key.len() as int) =~= key);
    let behind_a = a.skip(key.len() as int);
    let behind_b = b.skip(key.len() as int);
    assert(behind_a[0] == ' ' && behind_a.skip(1)[0] == '=');
    assert(text::trimmed_start(behind_a.skip(1)) == behind_a.skip(1));
    assert(behind_a.skip(1).take(1) =~= "="@);
    assert(behind_b[0] == '=');
    assert(behind_b.take(1) =~= "="@);
    assert(codex::sets_key(a, codex::root_keys()[k]));
    assert(codex::sets_key(b, codex::root_keys()[k]));
    assert(!codex::opens_section(a)) by {
        assert(a.take(1)[0] == a[0]);
    }
    assert(!codex::opens_section(b)) by {
        assert(b.take(1)[0] == b[0]);
    }
    assert(lines.push(a).take(lines.len() as int) =~= lines);
    assert(lines.push(b).take(lines.len() as int) =~= lines);
    assert forall|i: int| 0 <= i < lines.push(a).len() implies !codex::opens_section(
        #[trigger] lines.push(a)[i],
    ) by {
        if i < lines.len() {
            assert(lines.push(a)[i] == lines[i]);
        }
    }
    assert forall|i: int| 0 <= i < lines.push(b).len() implies !codex::opens_section(
        #[trigger] lines.push(b)[i],
    ) by {
        if i < lines.len() {
            assert(lines.push(b)[i] == lines[i]);
        }
    }
}

/// A line that begins with none of the adapter's keys stays, and so does every line once a
/// section has begun.
pub proof fn lemma_line_stays(lines: Seq<Seq<char>>, line: Seq<char>)
    requires
        (forall|k: int|
            0 <= k < 8 ==> !text::begins(text::trimmed_start(line), #[trigger] set_keys()[k]))
            || !codex::in_root(lines),
    ensures
        codex::kept_lines(lines.push(line)) == codex::kept_lines(lines).push(line),
{
    assert(lines.push(line).take(lines.len() as int) =~= lines);
    if !codex::in_root(lines) {
        let i = choose|i: int| 0 <= i < lines.len() && codex::opens_section(#[trigger] lines[i]);
        assert(lines.push(line)[i] == lines[i]);
        assert(!codex::in_root(lines.push(line)));
    } else {
        assert forall|i: int| 0 <= i < codex::root_keys().len() implies !codex::sets_key(
            line,
            #[trigger] codex::root_keys()[i],
        ) by {
            assert(codex::root_keys()[i] == set_keys()[i]);
        }
    }
}

/// A line begins a section if it begins with a bracket, but for white space before it.
pub proof fn lemma_section(line: Seq<char>)
    ensures
        text::trimmed_start(line).len() > 0 ==> (codex::opens_section(line) <==> text::trimmed_start(
            line,
        )[0] == '['),
        text::trimmed_start(line).len() == 0 ==> !codex::opens_section(line),
{
    reveal_strlit("[");
    let t = text::trimmed_start(line);
    if t.len() > 0 {
        assert(t.take(1)[0] == t[0]);
        if t[0] == '[' {
            assert(t.take("["@.len() as int) =~= "["@);
        }
    }
}

/// The block of root keys stands between its markers, and sets the provider, the model, also
/// for reviews, and the other keys.
pub proof fn lemma_root_block(provider: Seq<char>, model: Seq<char>)
    ensures
        ({
            let block = codex::root_block(provider, model);
            &&& text::begins(block, "# BEGIN model-toolcall-adapter root\n"@)
            &&& text::ends(block, "\n# END model-toolcall-adapter root\n"@)
            &&& text::has(block, "\nmodel_provider = \""@ + provider + "\"\n"@)
            &&& text::has(block, "\nmodel = \""@ + model + "\"\n"@)
            &&& text::has(block, "\nreview_model = \""@ + model + "\"\n"@)
            &&& text::has(block, "\nmodel_reasoning_effort = \"xhigh\"\n"@)
            &&& text::has(block, "\ndisable_response_storage = true\n"@)
            &&& text::has(block, "\nnetwork_access = \"enabled\"\n"@)
            &&& text::has(block, "\nmodel_context_window = 1000000\n"@)
            &&& text::has(block, "\nmodel_auto_compact_token_limit = 900000\n"@)
        }),
{
    reveal_strlit("# BEGIN model-toolcall-adapter root\n");
    reveal_strlit("# BEGIN model-toolcall-adapter root");
    reveal_strlit("\n# END model-toolcall-adapter root\n");
    reveal_strlit("# END model-toolcall-adapter root");
    reveal_strlit("\n");
    reveal_strlit("\"\n");
    reveal_strlit("\nmodel_provider = \"");
    reveal_strlit("\"\nmodel = \"");
    reveal_strlit("\nmodel = \"");
    reveal_strlit("\"\nreview_model = \"");
    reveal_strlit("\nreview_model = \"");
    reveal_strlit("\"\nmodel_reasoning_effort = \"xhigh\"\ndisable_response_storage = true\nnetwork_access = \"enabled\"\nmodel_context_window = 1000000\nmodel_auto_compact_token_limit = 900000\n");
    reveal_strlit("\nmodel_reasoning_effort = \"xhigh\"\n");
    reveal_strlit("\ndisable_response_storage = true\n");
    reveal_strlit("\nnetwork_access = \"enabled\"\n");
    reveal_strlit("\nmodel_context_window = 1000000\n");
    reveal_strlit("\nmodel_auto_compact_token_limit = 900000\n");
    let block = codex::root_block(provider, model);
    let begin = "# BEGIN model-toolcall-adapter root"@;
    let end = "# END model-toolcall-adapter root"@;
    let rest = "\"\nmodel_reasoning_effort = \"xhigh\"\ndisable_response_storage = true\nnetwork_access = \"enabled\"\nmodel_context_window = 1000000\nmodel_auto_compact_token_limit = 900000\n"@;
    let a = begin.len() as int;
    let b = a + "\nmodel_provider = \""@.len() + provider.len();
    let c = b + "\"\nmodel = \""@.len() + model.len();
    let d = c + "\"\nreview_model = \""@.len() + model.len();
    assert(block.take(a + 1) =~= "# BEGIN model-toolcall-adapter root\n"@);
    assert(block.skip(block.len() - (end.len() + 2))
        =~= "\n# END model-toolcall-adapter root\n"@);
    let p = "\nmodel_provider = \""@ + provider + "\"\n"@;
    assert(block.subrange(a, a + p.len()) =~= p);
    assert(text::occurs(block, p, a));
    let q = "\nmodel = \""@ + model + "\"\n"@;
    assert(block.subrange(b + 1, b + 1 + q.len()) =~= q);
    assert(text::occurs(block, q, b + 1));
    let r = "\nreview_model = \""@ + model + "\"\n"@;
    assert(block.subrange(c + 1, c + 1 + r.len()) =~= r);
    assert(text::occurs(block, r, c + 1));
    assert(block.subrange(d, d + rest.len()) =~= rest);
    assert(text::occurs(block, rest, d));
    let w = "\nmodel_reasoning_effort = \"xhigh\"\n"@;
    assert(rest.subrange(1, 1int + w.len()) =~= w);
    assert(text::occurs(rest, w, 1));
    text::lemma_has_within(block, rest, w);
    let i2 = 1int + w.len() - 1;
    let x = "\ndisable_response_storage = true\n"@;
    assert(rest.subrange(i2, i2 + x.len()) =~= x);
    assert(text::occurs(rest, x, i2));
    text::lemma_has_within(block, rest, x);
    let i3 = i2 + x.len() - 1;
    let y = "\nnetwork_access = \"enabled\"\n"@;
    assert(rest.subrange(i3, i3 + y.len()) =~= y);
    assert(text::occurs(rest, y, i3));
    text::lemma_has_within(block, rest, y);
    let i4 = i3 + y.len() - 1;
    let z = "\nmodel_context_window = 1000000\n"@;
    assert(rest.subrange(i4, i4 + z.len()) =~= z);
    assert(text::occurs(rest, z, i4));
    text::lemma_has_within(block, rest, z);
    let i5 = i4 + z.len() - 1;
    let u = "\nmodel_auto_compact_token_limit = 900000\n"@;
    assert(rest.subrange(i5, i5 + u.len()) =~= u);
    assert(text::occurs(rest, u, i5));
    text::lemma_has_within(block, rest, u);
}

/// The block of the provider stands between its markers, opens the provider's section, and
/// gives its name, its address and the API that it speaks.
pub proof fn lemma_provider_block(provider: Seq<char>, base_url: Seq<char>)
    ensures
        ({
            let block = codex::provider_block(provider, base_url);
            &&& text::begins(
                block,
                "# BEGIN model-toolcall-adapter provider"@ + "\n[model_providers."@ + provider
                    + "]\n"@,
            )
            &&& text::ends(block, "\n# END model-toolcall-adapter provider\n"@)
            &&& text::has(block, "\nname = \""@ + provider + "\"\n"@)
            &&& text::has(block, "\nbase_url = \""@ + base_url + "\"\n"@)
            &&& text::has(block, "\nwire_api = \"responses\"\n"@)
            &&& text::has(block, "\nrequires_openai_auth = true\n"@)
        }),
{
    reveal_strlit("# BEGIN model-toolcall-adapter provider");
    reveal_strlit("# END model-toolcall-adapter provider");
    reveal_strlit("\n# END model-toolcall-adapter provider\n");
    reveal_strlit("\n");
    reveal_strlit("]\n");
    reveal_strlit("\"\n");
    reveal_strlit("\n[model_providers.");
    reveal_strlit("]\nname = \"");
    reveal_strlit("\nname = \"");
    reveal_strlit("\"\nbase_url = \"");
    reveal_strlit("\nbase_url = \"");
    reveal_strlit("\"\nwire_api = \"responses\"\nrequires_openai_auth = true\n");
    reveal_strlit("\nwire_api = \"responses\"\n");
    reveal_strlit("\nrequires_openai_auth = true\n");
    let block = codex::provider_block(provider, base_url);
    let begin = "# BEGIN model-toolcall-adapter provider"@;
    let end = "# END model-toolcall-adapter provider"@;
    let a = (begin.len() + "\n[model_providers."@.len() + provider.len()) as int;
    let b = a + "]\nname = \""@.len() + provider.len();
    let c = b + "\"\nbase_url = \""@.len() + base_url.len();
    let head = begin + "\n[model_providers."@ + provider + "]\n"@;
    assert(block.take(head.len() as int) =~= head);
    assert(block.skip(block.len() - (end.len() + 2))
        =~= "\n# END model-toolcall-adapter provider\n"@);
    let p = "\nname = \""@ + provider + "\"\n"@;
    assert(block.subrange(a + 1, a + 1 + p.len()) =~= p);
    assert(text::occurs(block, p, a + 1));
    let q = "\nbase_url = \""@ + base_url + "\"\n"@;
    assert(block.subrange(b + 1, b + 1 + q.len()) =~= q);
    assert(text::occurs(block, q, b + 1));
    let r = "\nwire_api = \"responses\"\n"@;
    assert(block.subrange(c + 1, c + 1 + r.len()) =~= r);
    assert(text::occurs(block, r, c + 1));
    let i = c + 1 + r.len() - 1;
    let u = "\nrequires_openai_auth = true\n"@;
    assert(block.subrange(i, i + u.len()) =~= u);
    assert(text::occurs(block, u, i));
}

/// Codex is set up for one of two providers, with the adapter's key, and for the reasoning
/// model of the web chat or else the model that the upstream has.
pub proof fn lemma_setup_choices(
    payload: JsonView,
    key: Seq<char>,
    model: Option<Seq<char>>,
    other: Option<Seq<char>>,
)
    ensures
        payload.get("provider"@) matches Some(JsonView::Text(provider)) ==> {
            let chosen = codex::chosen_provider(payload);
            let t = text::trimmed(provider);
            &&& t == "openai-compatible"@ ==> chosen == Ok::<Seq<char>, ErrorView>(
                "openai-compatible"@,
            )
            &&& t == "deepseek-web"@ ==> chosen == Ok::<Seq<char>, ErrorView>("deepseek-web"@)
            &&& t != "openai-compatible"@ && t != "deepseek-web"@ ==> chosen == Err::<
                Seq<char>,
                ErrorView,
            >(ErrorView::InvalidRequest("provider must be openai-compatible or deepseek-web"@))
        },
        payload.get("provider"@) is None ==> codex::chosen_provider(payload) is Err,
        codex::model_of_provider("deepseek-web"@) == Some("deepseek-web/reasoner"@),
        codex::model_of_provider("openai-compatible"@) is None,
        codex::model_for_codex(Some("deepseek-web"@), model) == "deepseek-web/reasoner"@,
        other != Some("deepseek-web"@) ==> {
            &&& model matches Some(model) ==> {
                &&& !text::blank(model) ==> codex::model_for_codex(other, Some(model))
                    == text::trimmed(model)
                &&& text::blank(model) ==> codex::model_for_codex(other, Some(model))
                    == "local-model"@
            }
            &&& codex::model_for_codex(other, None) == "local-model"@
        },
        text::blank(key) ==> codex::key_for_codex(key) is Err,
        !text::blank(key) ==> codex::key_for_codex(key) == Ok::<Seq<char>, ErrorView>(
            text::trimmed(key),
        ),
{
    reveal_strlit("deepseek-web");
    reveal_strlit("openai-compatible");
    reveal_strlit("");
    assert("deepseek-web"@.len() == 12 && "openai-compatible"@.len() == 17);
}

/// The copy of a file has the file's name with `.bak` behind it, and a number behind that
/// from the second on.
pub proof fn lemma_backup_named(path: Seq<char>, attempt: nat)
    ensures
        text::begins(codex::backup_of(path, attempt), path + ".bak"@),
        codex::backup_of(path, 0) == path + ".bak"@,
        attempt > 0 ==> codex::backup_of(path, attempt) == path + ".bak"@ + "."@ + text::decimal(
            attempt,
        ),
{
    reveal_strlit(".bak");
    reveal_strlit(".bak.");
    reveal_strlit(".");
    let name = codex::backup_of(path, attempt);
    assert(name.take((path + ".bak"@).len() as int) =~= path + ".bak"@);
    if attempt > 0 {
        assert(name =~= path + ".bak"@ + "."@ + text::decimal(attempt));
    }
}

} // verus!
