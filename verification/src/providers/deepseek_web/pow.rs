//! The proof of work that DeepSeek asks for before each completion.
use vstd::prelude::*;

use sha2::Digest;

use crate::error::{AdapterError, ErrorView};
use crate::json;
use crate::json::{Json, JsonView, Members};
use crate::text;
use crate::views;

verus! {

/// The SHA-256 digest of these bytes.
pub uninterp spec fn sha256(data: Seq<u8>) -> Seq<u8>;

/// `sha2::Sha256::digest`, the SHA-256 digest of the bytes, 32 bytes long.
#[verifier::external_body]
fn sha256_digest(data: &[u8]) -> (r: Vec<u8>)
    ensures
        r@ == sha256(data@),
        r@.len() == 32,
{
    sha2::Sha256::digest(data).to_vec()
}

/// The text of these bytes in Base64, with the standard alphabet and padding.
pub uninterp spec fn base64(data: Seq<u8>) -> Seq<char>;

/// `base64::engine::general_purpose::STANDARD.encode`.
#[verifier::external_body]
fn base64_text(data: &[u8]) -> (r: String)
    ensures
        r@ == base64(data@),
{
    base64::Engine::encode(&base64::engine::general_purpose::STANDARD, data)
}

/// How many bits are zero before the first that is one.
pub open spec fn zero_bits(bytes: Seq<u8>) -> nat
    decreases bytes.len(),
{
    if bytes.len() == 0 {
        0
    } else if bytes[0] == 0 {
        8 + zero_bits(bytes.skip(1))
    } else {
        bytes[0].leading_zeros() as nat
    }
}

/// How many zero bits a difficulty asks for: a difficulty above 1000 is a count of
/// attempts, of which the binary logarithm is taken.
pub open spec fn wanted_bits(difficulty: u64) -> int {
    if difficulty > 1000 {
        63 - vstd::std_specs::bits::u64_leading_zeros(difficulty)
    } else {
        difficulty as int
    }
}

/// The largest nonce that is tried.
pub const LAST_NONCE: u64 = 10_000_000;

/// Whether the digest of salt, challenge and nonce starts with so many zero bits.
pub open spec fn solves(salt: Seq<char>, target: Seq<char>, bits: int, nonce: u64) -> bool {
    zero_bits(sha256(vstd::utf8::encode_utf8(salt + target + text::decimal(nonce as nat)))) >= bits
}

/// The first nonce from `from` on that solves the challenge.
pub open spec fn first_nonce(salt: Seq<char>, target: Seq<char>, bits: int, from: u64) -> Option<u64>
    decreases LAST_NONCE + 1 - from,
{
    if from > LAST_NONCE {
        None
    } else if solves(salt, target, bits, from) {
        Some(from)
    } else {
        first_nonce(salt, target, bits, (from + 1) as u64)
    }
}

/// The first nonce solves the challenge and no smaller one does; without one, none
/// that is tried does.
pub proof fn lemma_first_nonce(salt: Seq<char>, target: Seq<char>, bits: int, from: u64)
    ensures
        first_nonce(salt, target, bits, from) matches Some(n) ==> from <= n <= LAST_NONCE && solves(
            salt,
            target,
            bits,
            n,
        ) && (forall|m: u64| from <= m < n ==> !#[trigger] solves(salt, target, bits, m)),
        first_nonce(salt, target, bits, from) is None ==> (forall|m: u64|
            from <= m <= LAST_NONCE ==> !#[trigger] solves(salt, target, bits, m)),
    decreases LAST_NONCE + 1 - from,
{
    if from <= LAST_NONCE && !solves(salt, target, bits, from) {
        lemma_first_nonce(salt, target, bits, (from + 1) as u64);
    }
}

/// The members of the answer that gives this nonce.
pub open spec fn solution(
    target: Seq<char>,
    salt: Seq<char>,
    nonce: u64,
    target_path: JsonView,
) -> Members {
    seq![
        ("algorithm"@, JsonView::Text("sha256"@)),
        ("challenge"@, JsonView::Text(target)),
        ("salt"@, JsonView::Text(salt)),
        ("answer"@, JsonView::Integer(nonce as int)),
        ("signature"@, JsonView::Bool(true)),
        ("target_path"@, target_path),
    ]
}

/// The answer to a SHA-256 challenge, with the first nonce that solves it.
pub open spec fn sha256_answer(challenge: JsonView) -> Result<JsonView, ErrorView> {
    match (challenge.text_at("challenge"@), challenge.text_at("salt"@)) {
        (None, _) => Err(ErrorView::Upstream("sha256 PoW challenge is missing challenge"@)),
        (_, None) => Err(ErrorView::Upstream("sha256 PoW challenge is missing salt"@)),
        (Some(target), Some(salt)) => match json::integer_at(challenge, "difficulty"@) {
            None => Err(ErrorView::Upstream("sha256 PoW challenge is missing difficulty"@)),
            Some(difficulty) => match first_nonce(salt, target, wanted_bits(difficulty), 0) {
                None => Err(
                    ErrorView::Upstream("sha256 PoW solver timeout after 10000000 attempts"@),
                ),
                Some(nonce) => Ok(
                    JsonView::object(
                        solution(
                            target,
                            salt,
                            nonce,
                            match challenge.get("target_path"@) {
                                Some(path) => path,
                                None => JsonView::Null,
                            },
                        ),
                    ),
                ),
            },
        },
    }
}

/// An answer to a SHA-256 challenge gives back what was asked and holds a nonce that
/// solves it, the smallest one. Where there is no answer to a whole challenge, no nonce
/// that is tried solves it.
pub proof fn lemma_sha256_answer(challenge: JsonView, target: Seq<char>, salt: Seq<char>, difficulty: u64)
    requires
        challenge.text_at("challenge"@) == Some(target),
        challenge.text_at("salt"@) == Some(salt),
        json::integer_at(challenge, "difficulty"@) == Some(difficulty),
    ensures
        match sha256_answer(challenge) {
            Ok(answer) => {
                &&& answer.text_at("challenge"@) == Some(target)
                &&& answer.text_at("salt"@) == Some(salt)
                &&& exists|nonce: u64|
                    answer.get("answer"@) == Some(JsonView::Integer(nonce as int)) && #[trigger] solves(
                        salt,
                        target,
                        wanted_bits(difficulty),
                        nonce,
                    ) && forall|smaller: u64|
                        smaller < nonce ==> !#[trigger] solves(
                            salt,
                            target,
                            wanted_bits(difficulty),
                            smaller,
                        )
            },
            Err(_) => forall|nonce: u64|
                nonce <= LAST_NONCE ==> !#[trigger] solves(
                    salt,
                    target,
                    wanted_bits(difficulty),
                    nonce,
                ),
        },
{
    let bits = wanted_bits(difficulty);
    lemma_first_nonce(salt, target, bits, 0);
    if let Some(nonce) = first_nonce(salt, target, bits, 0) {
        let path = match challenge.get("target_path"@) {
            Some(path) => path,
            None => JsonView::Null,
        };
        let pairs = solution(target, salt, nonce, path);
        lemma_solution_names(pairs);
        json::lemma_lookup_collected(pairs, 1);
        json::lemma_lookup_collected(pairs, 2);
        json::lemma_lookup_collected(pairs, 3);
        assert(solves(salt, target, bits, nonce));
    }
}

proof fn lemma_solution_names(pairs: Members)
    requires
        pairs.len() == 6,
        pairs[0].0 == "algorithm"@,
        pairs[1].0 == "challenge"@,
        pairs[2].0 == "salt"@,
        pairs[3].0 == "answer"@,
        pairs[4].0 == "signature"@,
        pairs[5].0 == "target_path"@,
    ensures
        forall|i: int, j: int|
            0 <= i < j < pairs.len() ==> (#[trigger] pairs[i]).0 != (#[trigger] pairs[j]).0,
{
    reveal_strlit("algorithm");
    reveal_strlit("challenge");
    reveal_strlit("salt");
    reveal_strlit("answer");
    reveal_strlit("signature");
    reveal_strlit("target_path");
    let firsts = seq![
        ("algorithm"@.len(), 'a'),
        ("challenge"@.len(), 'c'),
        ("salt"@.len(), 's'),
        ("answer"@.len(), 'a'),
        ("signature"@.len(), 's'),
        ("target_path"@.len(), 't'),
    ];
    assert forall|i: int, j: int| 0 <= i < j < pairs.len() implies (#[trigger] pairs[i]).0 != (
    #[trigger] pairs[j]).0 by {
        assert(firsts[i] == (pairs[i].0.len(), pairs[i].0[0]));
        assert(firsts[j] == (pairs[j].0.len(), pairs[j].0[0]));
        assert(firsts[i] != firsts[j]);
    }
}

/// How many bits are zero before the first that is one.
pub fn leading_zero_bits(bytes: &[u8]) -> (r: u32)
    requires
        bytes@.len() * 8 <= u32::MAX,
    ensures
        r == zero_bits(bytes@),
{
    broadcast use vstd::std_specs::bits::axiom_u8_leading_zeros;

    let mut total: u32 = 0;
    let mut i: usize = 0;
    assert(bytes@.skip(0) =~= bytes@);
    while i < bytes.len()
        invariant
            i <= bytes@.len(),
            bytes@.len() * 8 <= u32::MAX,
            total == i * 8,
            zero_bits(bytes@) == total + zero_bits(bytes@.skip(i as int)),
        decreases bytes.len() - i,
    {
        assert(bytes@.skip(i as int).skip(1) =~= bytes@.skip(i + 1));
        if bytes[i] == 0 {
            total += 8;
        } else {
            return total + bytes[i].leading_zeros();
        }
        i += 1;
    }
    total
}

/// The first nonce that solves the challenge.
fn find_nonce(salt: &str, target: &str, bits: u32) -> (r: Option<u64>)
    ensures
        r == first_nonce(salt@, target@, bits as int, 0),
{
    let mut prefix = salt.to_owned();
    prefix.append(target);
    let mut nonce: u64 = 0;
    while nonce <= LAST_NONCE
        invariant
            prefix@ == salt@ + target@,
            nonce <= LAST_NONCE + 1,
            first_nonce(salt@, target@, bits as int, nonce) == first_nonce(
                salt@,
                target@,
                bits as int,
                0,
            ),
        decreases LAST_NONCE + 1 - nonce,
    {
        let mut work = prefix.clone();
        work.append(text::decimal_of(nonce).as_str());
        let digest = sha256_digest(work.as_str().as_bytes());
        if leading_zero_bits(digest.as_slice()) >= bits {
            return Some(nonce);
        }
        nonce += 1;
    }
    None
}

/// Answers a SHA-256 challenge.
pub fn solve_sha256_pow(challenge: &Json) -> (r: Result<Json, AdapterError>)
    ensures
        views::of_result(r) == sha256_answer(challenge@),
{
    broadcast use vstd::std_specs::bits::axiom_u64_leading_zeros;

    let target = match challenge.text_at("challenge") {
        Some(target) => target,
        None => {
            return Err(
                AdapterError::Upstream("sha256 PoW challenge is missing challenge".to_owned()),
            );
        },
    };
    let salt = match challenge.text_at("salt") {
        Some(salt) => salt,
        None => {
            return Err(AdapterError::Upstream("sha256 PoW challenge is missing salt".to_owned()));
        },
    };
    let difficulty = match challenge.u64_at("difficulty") {
        Some(difficulty) => difficulty,
        None => {
            return Err(
                AdapterError::Upstream("sha256 PoW challenge is missing difficulty".to_owned()),
            );
        },
    };
    let bits = if difficulty > 1000 {
        63 - difficulty.leading_zeros()
    } else {
        difficulty as u32
    };
    match find_nonce(salt, target, bits) {
        None => Err(
            AdapterError::Upstream("sha256 PoW solver timeout after 10000000 attempts".to_owned()),
        ),
        Some(nonce) => {
            let path = match challenge.get("target_path") {
                Some(path) => path.clone(),
                None => Json::Null,
            };
            let pairs = vec![
                ("algorithm", Json::text("sha256")),
                ("challenge", Json::text(target)),
                ("salt", Json::text(salt)),
                ("answer", Json::Unsigned(nonce)),
                ("signature", Json::Bool(true)),
                ("target_path", path),
            ];
            assert(json::pairs_view(pairs@) =~= solution(target@, salt@, nonce, path@));
            Ok(Json::object(pairs))
        },
    }
}

/// Whether a challenge is one for SHA-256.
pub open spec fn asks_sha256(challenge: JsonView) -> bool {
    challenge.text_at("algorithm"@) matches Some(algorithm) && text::same_ignoring_case(
        algorithm,
        "sha256"@,
    )
}

/// How a challenge is to be answered.
#[derive(Debug)]
pub enum PowStep {
    /// By this answer, or not at all.
    Answered(Result<Json, AdapterError>),
    /// By what a script run by Node.js says to the challenge, given as JSON text.
    AskScript(String),
}

/// How a challenge is to be answered: a SHA-256 challenge here, any other by the
/// script.
pub fn solve_pow(challenge: &Json) -> (r: PowStep)
    ensures
        asks_sha256(challenge@) ==> (r matches PowStep::Answered(answer) && views::of_result(answer)
            == sha256_answer(challenge@)),
        !asks_sha256(challenge@) ==> (r matches PowStep::AskScript(argument) && argument@
            == json::compact(challenge@)),
{
    if let Some(algorithm) = challenge.text_at("algorithm") {
        if text::eq_ignore_case(algorithm, "sha256") {
            return PowStep::Answered(solve_sha256_pow(challenge));
        }
    }
    PowStep::AskScript(challenge.to_text())
}

/// What the script's failure is reported as: what it wrote, trimmed.
pub open spec fn script_failure(stdout: Seq<char>, stderr: Seq<char>) -> ErrorView {
    ErrorView::Upstream(
        "PoW solver failed: "@ + text::trimmed(stdout) + "; stderr: "@ + text::trimmed(stderr),
    )
}

/// The error for a script that exited with a failure.
pub fn script_failed(stdout: &str, stderr: &str) -> (r: AdapterError)
    ensures
        r@ == script_failure(stdout@, stderr@),
{
    let mut message = "PoW solver failed: ".to_owned();
    message.append(text::trim_str(stdout).as_str());
    message.append("; stderr: ");
    message.append(text::trim_str(stderr).as_str());
    AdapterError::Upstream(message)
}

/// What the script's result comes to: its answer if its status is a success, else
/// an error with its message.
pub open spec fn script_outcome(
    status: Seq<char>,
    answer: JsonView,
    message: Option<Seq<char>>,
) -> Result<JsonView, ErrorView> {
    if status == "success"@ {
        Ok(answer)
    } else {
        Err(
            ErrorView::Upstream(
                "PoW solver failed: "@ + match message {
                    Some(message) => message,
                    None => "unknown error"@,
                },
            ),
        )
    }
}

/// What the script's result comes to.
pub fn script_result(status: &str, answer: Json, message: Option<String>) -> (r: Result<
    Json,
    AdapterError,
>)
    ensures
        views::of_result(r) == script_outcome(status@, answer@, views::of_option(message)),
{
    if text::same(status, "success") {
        Ok(answer)
    } else {
        let mut text = "PoW solver failed: ".to_owned();
        match message {
            Some(message) => text.append(message.as_str()),
            None => text.append("unknown error"),
        }
        Err(AdapterError::Upstream(text))
    }
}

/// Where a reply may hold the challenge.
pub open spec fn challenge_in(payload: JsonView) -> Option<JsonView> {
    match payload.pointer(seq!["data"@, "biz_data"@, "challenge"@]) {
        Some(challenge) => Some(challenge),
        None => match payload.pointer(seq!["data"@, "challenge"@]) {
            Some(challenge) => Some(challenge),
            None => payload.pointer(seq!["challenge"@]),
        },
    }
}

/// The challenge that the body of a reply holds.
pub open spec fn received_challenge(body: Seq<char>) -> Result<JsonView, ErrorView> {
    match json::reading(body) {
        Err(error) => Err(
            ErrorView::Upstream("deepseek web pow json: "@ + error + ": "@ + body),
        ),
        Ok(payload) => match challenge_in(payload) {
            Some(challenge) => Ok(challenge),
            None => Err(ErrorView::Upstream("missing DeepSeek Web PoW challenge"@ + ": "@ + body)),
        },
    }
}

/// Finds the challenge in a reply.
pub fn find_challenge(payload: &Json) -> (r: Option<&Json>)
    ensures
        views::of_option(r) == challenge_in(payload@),
{
    let paths = vec![
        vec!["data", "biz_data", "challenge"],
        vec!["data", "challenge"],
        vec!["challenge"],
    ];
    proof {
        assert(json::tokens_view(paths@[0]@) =~= seq!["data"@, "biz_data"@, "challenge"@]);
        assert(json::tokens_view(paths@[1]@) =~= seq!["data"@, "challenge"@]);
        assert(json::tokens_view(paths@[2]@) =~= seq!["challenge"@]);
    }
    match payload.pointer(paths[0].as_slice()) {
        Some(challenge) => Some(challenge),
        None => match payload.pointer(paths[1].as_slice()) {
            Some(challenge) => Some(challenge),
            None => payload.pointer(paths[2].as_slice()),
        },
    }
}

/// The challenge that the body of a reply holds.
pub fn read_challenge(body: &str) -> (r: Result<Json, AdapterError>)
    ensures
        views::of_result(r) == received_challenge(body@),
{
    let payload = match json::read_json(body) {
        Ok(payload) => payload,
        Err(error) => {
            let mut message = "deepseek web pow json: ".to_owned();
            message.append(error.as_str());
            message.append(": ");
            message.append(body);
            return Err(AdapterError::Upstream(message));
        },
    };
    match find_challenge(&payload) {
        Some(challenge) => Ok(challenge.clone()),
        None => Err(
            AdapterError::upstream_failure("missing DeepSeek Web PoW challenge", body),
        ),
    }
}

/// The challenge with its answer and the path that it is for; a challenge that is
/// no object stays as it is.
pub open spec fn answered(challenge: JsonView, answer: JsonView, target_path: Seq<char>) -> JsonView {
    match challenge {
        JsonView::Object(members) => JsonView::Object(
            json::inserted(
                json::inserted(members, "answer"@, answer),
                "target_path"@,
                JsonView::Text(target_path),
            ),
        ),
        other => other,
    }
}

/// The challenge with its answer and the path that it is for.
pub fn deepseek_pow_response_payload(challenge: &Json, answer: Json, target_path: &str) -> (r: Json)
    ensures
        r@ == answered(challenge@, answer@, target_path@),
{
    match challenge.clone() {
        Json::Object(object) => Json::Object(
            object.with("answer".to_owned(), answer).with(
                "target_path".to_owned(),
                Json::text(target_path),
            ),
        ),
        other => other,
    }
}

/// The value of the header that carries the answer to a challenge.
pub fn pow_header(challenge: &Json, answer: Json, target_path: &str) -> (r: String)
    ensures
        r@ == base64(
            vstd::utf8::encode_utf8(json::compact(answered(challenge@, answer@, target_path@))),
        ),
{
    let payload = deepseek_pow_response_payload(challenge, answer, target_path).to_text();
    base64_text(payload.as_str().as_bytes())
}

/// An answer given to an object of a challenge is the answer found in it, as is the
/// path; every other member of the challenge is unchanged.
pub proof fn lemma_answered(challenge: JsonView, answer: JsonView, path: Seq<char>, key: Seq<char>)
    requires
        challenge is Object,
    ensures
        answered(challenge, answer, path).get("answer"@) == Some(answer),
        answered(challenge, answer, path).get("target_path"@) == Some(JsonView::Text(path)),
        key != "answer"@ && key != "target_path"@ ==> answered(challenge, answer, path).get(key)
            == challenge.get(key),
{
    reveal_strlit("answer");
    reveal_strlit("target_path");
    assert("answer"@.len() != "target_path"@.len());
    let members = challenge->Object_0;
    let once = json::inserted(members, "answer"@, answer);
    json::lemma_lookup_inserted(members, "answer"@, answer, "answer"@);
    json::lemma_lookup_inserted(members, "answer"@, answer, key);
    json::lemma_lookup_inserted(once, "target_path"@, JsonView::Text(path), "answer"@);
    json::lemma_lookup_inserted(once, "target_path"@, JsonView::Text(path), "target_path"@);
    json::lemma_lookup_inserted(once, "target_path"@, JsonView::Text(path), key);
}

} // verus!
