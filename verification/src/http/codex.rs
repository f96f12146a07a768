//! Setting up Codex to use the adapter.
use vstd::prelude::*;

use crate::error::{AdapterError, ErrorView};
use crate::json;
use crate::json::{Json, JsonObject, JsonView, Members};
use crate::text;
use crate::text::CharClass;
use crate::upstream;
use crate::views;

verus! {

// ---------------------------------------------------------------------------
// The blocks that the adapter keeps in the config
// ---------------------------------------------------------------------------

/// How the block of root keys begins and ends.
pub const ROOT_BEGIN: &'static str = "# BEGIN model-toolcall-adapter root";

pub const ROOT_END: &'static str = "# END model-toolcall-adapter root";

/// How the block of the provider begins and ends.
pub const PROVIDER_BEGIN: &'static str = "# BEGIN model-toolcall-adapter provider";

pub const PROVIDER_END: &'static str = "# END model-toolcall-adapter provider";

/// The block of root keys for this provider and model.
pub open spec fn root_block(provider: Seq<char>, model: Seq<char>) -> Seq<char> {
    ROOT_BEGIN@ + "\nmodel_provider = \""@ + provider + "\"\nmodel = \""@ + model
        + "\"\nreview_model = \""@ + model
        + "\"\nmodel_reasoning_effort = \"xhigh\"\ndisable_response_storage = true\nnetwork_access = \"enabled\"\nmodel_context_window = 1000000\nmodel_auto_compact_token_limit = 900000\n"@
        + ROOT_END@ + "\n"@
}

/// The block of the provider at this address.
pub open spec fn provider_block(provider: Seq<char>, base_url: Seq<char>) -> Seq<char> {
    PROVIDER_BEGIN@ + "\n[model_providers."@ + provider + "]\nname = \""@ + provider
        + "\"\nbase_url = \""@ + base_url
        + "\"\nwire_api = \"responses\"\nrequires_openai_auth = true\n"@ + PROVIDER_END@ + "\n"@
}

/// The block of root keys for this provider and model.
pub fn codex_managed_root_block(provider: &str, model: &str) -> (r: String)
    ensures
        r@ == root_block(provider@, model@),
{
    let mut out = ROOT_BEGIN.to_owned();
    out.append("\nmodel_provider = \"");
    out.append(provider);
    out.append("\"\nmodel = \"");
    out.append(model);
    out.append("\"\nreview_model = \"");
    out.append(model);
    out.append(
        "\"\nmodel_reasoning_effort = \"xhigh\"\ndisable_response_storage = true\nnetwork_access = \"enabled\"\nmodel_context_window = 1000000\nmodel_auto_compact_token_limit = 900000\n",
    );
    out.append(ROOT_END);
    out.append("\n");
    out
}

/// The block of the provider at this address.
pub fn codex_managed_provider_block(provider: &str, base_url: &str) -> (r: String)
    ensures
        r@ == provider_block(provider@, base_url@),
{
    let mut out = PROVIDER_BEGIN.to_owned();
    out.append("\n[model_providers.");
    out.append(provider);
    out.append("]\nname = \"");
    out.append(provider);
    out.append("\"\nbase_url = \"");
    out.append(base_url);
    out.append("\"\nwire_api = \"responses\"\nrequires_openai_auth = true\n");
    out.append(PROVIDER_END);
    out.append("\n");
    out
}

/// `s` without the first block from `begin` to `end`, and an empty line where it stood
/// if something is before it.
pub open spec fn without_block(s: Seq<char>, begin: Seq<char>, end: Seq<char>) -> Seq<char> {
    match text::first(s, begin) {
        None => s,
        Some(start) => match text::first(s.skip(start), end) {
            None => s,
            Some(len) => {
                let head = text::trimmed_end(s.take(start));
                let rest = text::dropped_front(
                    s.skip(start + len + end.len()),
                    CharClass::LineEnd,
                );
                if head.len() > 0 {
                    head + "\n\n"@ + rest
                } else {
                    rest
                }
            },
        },
    }
}

/// The root keys that the adapter sets.
pub open spec fn root_keys() -> Seq<Seq<char>> {
    seq![
        "model_provider"@,
        "model"@,
        "review_model"@,
        "model_reasoning_effort"@,
        "disable_response_storage"@,
        "network_access"@,
        "model_context_window"@,
        "model_auto_compact_token_limit"@,
    ]
}

/// Whether a line sets this key.
pub open spec fn sets_key(line: Seq<char>, key: Seq<char>) -> bool {
    let t = text::trimmed_start(line);
    text::begins(t, key) && text::begins(text::trimmed_start(t.skip(key.len() as int)), "="@)
}

/// Whether a line sets one of these keys.
pub open spec fn sets_one(line: Seq<char>, keys: Seq<Seq<char>>) -> bool {
    exists|i: int| 0 <= i < keys.len() && sets_key(line, #[trigger] keys[i])
}

/// Whether a line opens a section.
pub open spec fn opens_section(line: Seq<char>) -> bool {
    text::begins(text::trimmed_start(line), "["@)
}

/// Whether these lines are all before the first section.
pub open spec fn in_root(lines: Seq<Seq<char>>) -> bool {
    forall|i: int| 0 <= i < lines.len() ==> !opens_section(#[trigger] lines[i])
}

/// The lines without those before the first section that set a root key which the
/// adapter sets.
pub open spec fn kept_lines(lines: Seq<Seq<char>>) -> Seq<Seq<char>>
    decreases lines.len(),
{
    if lines.len() == 0 {
        Seq::empty()
    } else {
        let before = kept_lines(lines.take(lines.len() - 1));
        let line = lines[lines.len() - 1];
        if in_root(lines) && sets_one(line, root_keys()) {
            before
        } else {
            before.push(line)
        }
    }
}

/// `s` without the root keys that the adapter sets.
pub open spec fn without_root_keys(s: Seq<char>) -> Seq<char> {
    text::joined(kept_lines(text::lines(s)), "\n"@)
}

/// What is left of a config once the adapter's blocks and root keys are taken out.
pub open spec fn own_config(existing: Seq<char>) -> Seq<char> {
    text::trimmed(
        without_root_keys(
            without_block(
                without_block(existing, ROOT_BEGIN@, ROOT_END@),
                PROVIDER_BEGIN@,
                PROVIDER_END@,
            ),
        ),
    )
}

/// The config with these as the adapter's blocks: the root keys before everything else,
/// the provider behind it.
pub open spec fn with_blocks(existing: Seq<char>, root: Seq<char>, provider: Seq<char>) -> Seq<char> {
    let body = own_config(existing);
    if body.len() == 0 {
        text::trimmed_end(root) + "\n\n"@ + text::trimmed_end(provider) + "\n"@
    } else {
        text::trimmed_end(root) + "\n\n"@ + body + "\n\n"@ + text::trimmed_end(provider) + "\n"@
    }
}

/// `existing` without the first block from `begin` to `end_marker`.
pub fn remove_managed_block(existing: &[char], begin: &str, end_marker: &str) -> (r: Vec<char>)
    ensures
        r@ == without_block(existing@, begin@, end_marker@),
{
    let start = match text::find_text(existing, begin) {
        Some(start) => start,
        None => {
            return vstd::slice::slice_to_vec(existing);
        },
    };
    let block = text::after(existing, start);
    let len = match text::find_text(block, end_marker) {
        Some(len) => len,
        None => {
            return vstd::slice::slice_to_vec(existing);
        },
    };
    let marker_len = text::chars_of(end_marker).len();
    let behind = text::after(block, len + marker_len);
    assert(behind@ =~= existing@.skip(start + len + end_marker@.len()));
    let head = text::trim_end(text::before(existing, start));
    let rest = text::drop_front(behind, CharClass::LineEnd);
    let mut output = vstd::slice::slice_to_vec(head);
    if head.len() > 0 {
        output.push('\n');
        output.push('\n');
    }
    let mut tail = vstd::slice::slice_to_vec(rest);
    output.append(&mut tail);
    proof {
        reveal_strlit("\n\n");
    }
    assert(output@ =~= without_block(existing@, begin@, end_marker@));
    output
}

/// Whether a line sets one of these keys.
fn line_sets_one(line: &[char], keys: &Vec<&str>) -> (r: bool)
    ensures
        r == sets_one(line@, json::tokens_view(keys@)),
{
    let ghost all = json::tokens_view(keys@);
    let t = text::trim_start(line);
    let mut i: usize = 0;
    while i < keys.len()
        invariant
            i <= keys@.len(),
            all == json::tokens_view(keys@),
            t@ == text::trimmed_start(line@),
            forall|k: int| 0 <= k < i ==> !sets_key(line@, #[trigger] all[k]),
        decreases keys.len() - i,
    {
        if text::begins_with_text(t, keys[i]) {
            let key_len = text::chars_of(keys[i]).len();
            let rest = text::trim_start(text::after(t, key_len));
            if text::begins_with_text(rest, "=") {
                assert(sets_key(line@, all[i as int]));
                return true;
            }
        }
        i += 1;
    }
    false
}

/// `existing` without the root keys that the adapter sets.
pub fn remove_codex_root_keys(existing: &[char]) -> (r: String)
    ensures
        r@ == without_root_keys(existing@),
{
    let keys = vec![
        "model_provider",
        "model",
        "review_model",
        "model_reasoning_effort",
        "disable_response_storage",
        "network_access",
        "model_context_window",
        "model_auto_compact_token_limit",
    ];
    assert(json::tokens_view(keys@) =~= root_keys());
    let lines = text::split_lines(existing);
    let ghost all = text::texts(lines@);
    let mut output: Vec<String> = Vec::new();
    let mut root = true;
    let mut i: usize = 0;
    assert(all.take(0) =~= Seq::empty());
    assert(text::texts(output@) =~= Seq::empty());
    while i < lines.len()
        invariant
            i <= lines@.len(),
            all == text::texts(lines@),
            json::tokens_view(keys@) == root_keys(),
            root == in_root(all.take(i as int)),
            text::texts(output@) == kept_lines(all.take(i as int)),
        decreases lines.len() - i,
    {
        let ghost next = all.take(i + 1);
        let ghost before = output@;
        assert(next.take(i as int) =~= all.take(i as int));
        assert(next[i as int] == all[i as int]);
        let line = text::chars_of(lines[i].as_str());
        let was_root = root;
        if text::begins_with_text(text::trim_start(line.as_slice()), "[") {
            root = false;
        }
        proof {
            assert(opens_section(next[i as int]) ==> !in_root(next));
            assert forall|k: int| 0 <= k < i implies all.take(i as int)[k] == next[k] by {}
            if was_root && !opens_section(next[i as int]) {
                assert forall|k: int| 0 <= k < next.len() implies !opens_section(
                    #[trigger] next[k],
                ) by {
                    if k < i {
                        assert(!opens_section(all.take(i as int)[k]));
                    }
                }
            }
            if !was_root {
                let k = choose|k: int|
                    0 <= k < all.take(i as int).len() && opens_section(
                        #[trigger] all.take(i as int)[k],
                    );
                assert(opens_section(next[k]));
            }
            assert(root == in_root(next));
        }
        if !(root && line_sets_one(line.as_slice(), &keys)) {
            output.push(lines[i].clone());
            assert(text::texts(output@) =~= text::texts(before).push(line@));
        }
        i += 1;
    }
    assert(all.take(i as int) =~= all);
    text::join(&output, "\n")
}

/// The config with these as the adapter's blocks.
pub fn replace_codex_managed_blocks(existing: &str, root_block: &str, provider_block: &str) -> (r:
    String)
    ensures
        r@ == with_blocks(existing@, root_block@, provider_block@),
{
    let chars = text::chars_of(existing);
    let without_root = remove_managed_block(chars.as_slice(), ROOT_BEGIN, ROOT_END);
    let without_provider = remove_managed_block(
        without_root.as_slice(),
        PROVIDER_BEGIN,
        PROVIDER_END,
    );
    let without_keys = remove_codex_root_keys(without_provider.as_slice());
    let body = text::trim_str(without_keys.as_str());
    let root_chars = text::chars_of(root_block);
    let provider_chars = text::chars_of(provider_block);
    let mut out = text::string_of(text::trim_end(root_chars.as_slice()));
    out.append("\n\n");
    proof {
        reveal_strlit("");
        assert(body@.len() == 0 ==> body@ =~= ""@);
    }
    if !text::same(body.as_str(), "") {
        out.append(body.as_str());
        out.append("\n\n");
    }
    out.append(text::string_of(text::trim_end(provider_chars.as_slice())).as_str());
    out.append("\n");
    out
}

/// The name of the adapter's provider in a config.
pub const CODEX_PROVIDER: &'static str = "ModelToolCallAdapter";

/// The address of an adapter that listens here.
pub fn codex_base_url(bind: &str) -> (r: String)
    ensures
        r@ == "http://"@ + bind@ + "/v1"@,
{
    let mut out = "http://".to_owned();
    out.append(bind);
    out.append("/v1");
    out
}

/// The name that a file is copied to before it is changed: the first that is tried is its
/// own with `.bak` behind it, and those after that are numbered from one.
pub open spec fn backup_of(path: Seq<char>, attempt: nat) -> Seq<char> {
    if attempt == 0 {
        path + ".bak"@
    } else {
        path + ".bak."@ + text::decimal(attempt)
    }
}

/// The name that a file is copied to before it is changed, at this attempt.
pub fn backup_name(path: &str, attempt: u64) -> (r: String)
    ensures
        r@ == backup_of(path@, attempt as nat),
{
    let mut out = path.to_owned();
    if attempt == 0 {
        out.append(".bak");
    } else {
        out.append(".bak.");
        out.append(text::decimal_of(attempt).as_str());
    }
    out
}

/// Every attempt has a name of its own, and none is that of the file.
pub proof fn lemma_backup_names(path: Seq<char>, a: nat, b: nat)
    ensures
        backup_of(path, a) == backup_of(path, b) ==> a == b,
        backup_of(path, a) != path,
{
    reveal_strlit(".bak");
    reveal_strlit(".bak.");
    if backup_of(path, a) == backup_of(path, b) {
        let n = path.len() as int;
        if a > 0 && b > 0 {
            assert(backup_of(path, a).skip(n + 5) =~= text::decimal(a));
            assert(backup_of(path, b).skip(n + 5) =~= text::decimal(b));
            text::lemma_decimal_distinct(a, b);
        } else if a > 0 || b > 0 {
            assert(backup_of(path, 0).len() == n + 4);
        }
    }
    assert(backup_of(path, a).len() > path.len());
}

/// The config begins with the adapter's root keys and ends with its provider.
pub proof fn lemma_with_blocks(existing: Seq<char>, root: Seq<char>, provider: Seq<char>)
    ensures
        text::begins(with_blocks(existing, root, provider), text::trimmed_end(root) + "\n\n"@),
        text::ends(
            with_blocks(existing, root, provider),
            "\n\n"@ + text::trimmed_end(provider) + "\n"@,
        ),
{
    let s = with_blocks(existing, root, provider);
    let start = text::trimmed_end(root) + "\n\n"@;
    let end = "\n\n"@ + text::trimmed_end(provider) + "\n"@;
    assert(s.take(start.len() as int) =~= start);
    assert(s.skip(s.len() - end.len()) =~= end);
}

/// Of the lines that are kept, none before the first section sets a root key that the
/// adapter sets; and every line from the first section on is kept.
pub proof fn lemma_kept_lines(lines: Seq<Seq<char>>)
    ensures
        forall|i: int|
            0 <= i < kept_lines(lines).len() && in_root(kept_lines(lines).take(i + 1))
                ==> !sets_one(#[trigger] kept_lines(lines)[i], root_keys()),
        in_root(lines) <==> in_root(kept_lines(lines)),
    decreases lines.len(),
{
    let kept = kept_lines(lines);
    if lines.len() > 0 {
        let n = lines.len() - 1;
        let before = lines.take(n);
        let earlier = kept_lines(before);
        let line = lines[n];
        lemma_kept_lines(before);
        assert(in_root(lines) <==> in_root(before) && !opens_section(line)) by {
            if in_root(lines) {
                assert forall|k: int| 0 <= k < before.len() implies !opens_section(
                    #[trigger] before[k],
                ) by {
                    assert(before[k] == lines[k]);
                }
                assert(!opens_section(lines[n]));
            }
            if in_root(before) && !opens_section(line) {
                assert forall|k: int| 0 <= k < lines.len() implies !opens_section(
                    #[trigger] lines[k],
                ) by {
                    if k < n {
                        assert(lines[k] == before[k]);
                    }
                }
            }
        }
        if in_root(lines) && sets_one(line, root_keys()) {
        } else {
            assert(kept == earlier.push(line));
            assert(kept.take(earlier.len() as int) =~= earlier);
            assert(kept.take(earlier.len() as int + 1) =~= kept);
            assert(in_root(kept) <==> in_root(earlier) && !opens_section(line)) by {
                if in_root(kept) {
                    assert forall|k: int| 0 <= k < earlier.len() implies !opens_section(
                        #[trigger] earlier[k],
                    ) by {
                        assert(earlier[k] == kept[k]);
                    }
                    assert(!opens_section(kept[earlier.len() as int]));
                }
                if in_root(earlier) && !opens_section(line) {
                    assert forall|k: int| 0 <= k < kept.len() implies !opens_section(
                        #[trigger] kept[k],
                    ) by {
                        if k < earlier.len() {
                            assert(kept[k] == earlier[k]);
                        }
                    }
                }
            }
            assert forall|i: int|
                0 <= i < kept.len() && in_root(kept.take(i + 1)) implies !sets_one(
                #[trigger] kept[i],
                root_keys(),
            ) by {
                if i < earlier.len() {
                    assert(kept.take(i + 1) =~= earlier.take(i + 1));
                    assert(kept[i] == earlier[i]);
                }
            }
        }
    }
}

// ---------------------------------------------------------------------------
// The rest of the setup
// ---------------------------------------------------------------------------

/// The content of the auth file with this key in it. What was no JSON object before is
/// replaced.
pub open spec fn auth_with(existing: Option<Seq<char>>, key: Seq<char>) -> Members {
    let read = match existing {
        Some(raw) => json::parsed(raw),
        None => None,
    };
    let members = match read {
        Some(JsonView::Object(members)) => members,
        _ => Seq::empty(),
    };
    json::inserted(members, "OPENAI_API_KEY"@, JsonView::Text(key))
}

/// The content of the auth file with this key in it, as text.
pub fn codex_auth(existing: Option<&str>, key: &str) -> (r: String)
    ensures
        r@ == json::pretty(JsonView::Object(auth_with(views::of_option(existing), key@))),
{
    let read = match existing {
        Some(raw) => json::parse_json(raw),
        None => None,
    };
    let object = match read {
        Some(Json::Object(object)) => object,
        _ => JsonObject::new(),
    };
    Json::Object(object.with("OPENAI_API_KEY".to_owned(), Json::text(key))).to_pretty_text()
}

/// The auth file holds the key, and everything else that it held.
pub proof fn lemma_auth_with(existing: Option<Seq<char>>, key: Seq<char>, other: Seq<char>)
    ensures
        json::lookup(auth_with(existing, key), "OPENAI_API_KEY"@) == Some(JsonView::Text(key)),
        other != "OPENAI_API_KEY"@ ==> (existing matches Some(raw) ==> (json::parsed(raw) matches Some(
            JsonView::Object(members),
        ) ==> json::lookup(auth_with(existing, key), other) == json::lookup(members, other))),
{
    let read = match existing {
        Some(raw) => json::parsed(raw),
        None => None,
    };
    let members = match read {
        Some(JsonView::Object(members)) => members,
        _ => Seq::empty(),
    };
    let value = JsonView::Text(key);
    json::lemma_lookup_inserted(members, "OPENAI_API_KEY"@, value, "OPENAI_API_KEY"@);
    json::lemma_lookup_inserted(members, "OPENAI_API_KEY"@, value, other);
}

/// The key that Codex is given: the adapter's, which has to be there.
pub open spec fn key_for_codex(adapter_api_key: Seq<char>) -> Result<Seq<char>, ErrorView> {
    if text::blank(adapter_api_key) {
        Err(
            ErrorView::InvalidRequest(
                "adapter api key is missing; reload setup state first"@,
            ),
        )
    } else {
        Ok(text::trimmed(adapter_api_key))
    }
}

/// The key that Codex is given.
pub fn codex_key(adapter_api_key: &str) -> (r: Result<String, AdapterError>)
    ensures
        views::of_result(r) == key_for_codex(adapter_api_key@),
{
    if text::is_blank(adapter_api_key) {
        Err(
            AdapterError::InvalidRequest(
                "adapter api key is missing; reload setup state first".to_owned(),
            ),
        )
    } else {
        Ok(text::trim_str(adapter_api_key))
    }
}

/// The model that Codex is given: DeepSeek's if that is the provider, or else the one
/// that is set.
pub open spec fn model_for_codex(
    provider: Option<Seq<char>>,
    upstream_model: Option<Seq<char>>,
) -> Seq<char> {
    if provider == Some("deepseek-web"@) {
        "deepseek-web/reasoner"@
    } else {
        match upstream::trimmed_if_present(upstream_model) {
            Some(model) => model,
            None => "local-model"@,
        }
    }
}

/// The model that Codex is given.
pub fn codex_model(provider: &Option<String>, upstream_model: &Option<String>) -> (r: String)
    ensures
        r@ == model_for_codex(views::of_option(*provider), views::of_option(*upstream_model)),
{
    if let Some(provider) = provider {
        if text::same(provider.as_str(), "deepseek-web") {
            return "deepseek-web/reasoner".to_owned();
        }
    }
    match upstream::trim_if_present(upstream_model) {
        Some(model) => model,
        None => "local-model".to_owned(),
    }
}

/// The provider that a setup request chooses.
pub open spec fn chosen_provider(payload: JsonView) -> Result<Seq<char>, ErrorView> {
    let provider = match payload.text_at("provider"@) {
        Some(provider) => text::trimmed(provider),
        None => Seq::empty(),
    };
    if provider == "openai-compatible"@ || provider == "deepseek-web"@ {
        Ok(provider)
    } else {
        Err(
            ErrorView::InvalidRequest("provider must be openai-compatible or deepseek-web"@),
        )
    }
}

/// The provider that a setup request chooses.
pub fn choose_provider(payload: &Json) -> (r: Result<String, AdapterError>)
    ensures
        views::of_result(r) == chosen_provider(payload@),
{
    let provider = match payload.text_at("provider") {
        Some(provider) => text::trim_str(provider),
        None => String::new(),
    };
    if text::same(provider.as_str(), "openai-compatible") || text::same(
        provider.as_str(),
        "deepseek-web",
    ) {
        Ok(provider)
    } else {
        Err(
            AdapterError::InvalidRequest(
                "provider must be openai-compatible or deepseek-web".to_owned(),
            ),
        )
    }
}

/// The model that choosing a provider sets.
pub open spec fn model_of_provider(provider: Seq<char>) -> Option<Seq<char>> {
    if provider == "deepseek-web"@ {
        Some("deepseek-web/reasoner"@)
    } else {
        None
    }
}

/// The model that choosing a provider sets.
pub fn provider_model(provider: &str) -> (r: Option<&'static str>)
    ensures
        views::of_option(r) == model_of_provider(provider@),
{
    if text::same(provider, "deepseek-web") {
        Some("deepseek-web/reasoner")
    } else {
        None
    }
}

} // verus!
