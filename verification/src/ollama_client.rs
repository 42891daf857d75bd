use vstd::prelude::*;
use vstd::string::StringExecFns;

verus! {

/// The backend that is asked where none is named.
pub const DEFAULT_BASE_URL: &'static str = "http://localhost:11434";

/// The model that is asked where none is named.
pub const DEFAULT_MODEL: &'static str = "qwen2.5-coder:7b";

/// A call of the backend is given up after this many seconds.
pub const REQUEST_TIMEOUT_SECONDS: u64 = 120;

/// Where the backend is and which model it is asked for.
#[derive(Clone)]
pub struct OllamaClient {
    pub base_url: String,
    pub model: String,
}

/// One line of the backend's response to a chat request: what the
/// assistant said, and whether that was the end of it.
#[derive(Debug, Clone)]
pub struct ResponsePart {
    pub content: String,
    pub done: bool,
}

/// Why the backend gave no answer.
#[derive(Debug, Clone)]
pub enum BackendError {
    /// The backend answered with a status that is no success; this is what
    /// it said.
    Status(String),
}

/// What is said of an answer with a status that is no success.
pub open spec fn status_message(body: Seq<char>) -> Seq<char> {
    "Ollama API error: "@ + body
}

/// What the first `n` lines of a response say in a row, up to and with the
/// first line that ends the response. Lines that are no part of the
/// response are passed over.
pub open spec fn said_in(parts: Seq<Option<ResponsePart>>, n: int) -> Seq<char>
    decreases n,
{
    if n <= 0 {
        seq![]
    } else if ended_in(parts, n - 1) {
        said_in(parts, n - 1)
    } else {
        match parts[n - 1] {
            Some(part) => said_in(parts, n - 1) + part.content@,
            None => said_in(parts, n - 1),
        }
    }
}

/// Whether one of the first `n` lines ends the response.
pub open spec fn ended_in(parts: Seq<Option<ResponsePart>>, n: int) -> bool {
    exists|i: int| 0 <= i < n && i < parts.len() && (#[trigger] parts[i]) is Some && parts[i]->0.done
}

impl BackendError {
    /// What is said of the error.
    pub fn message(&self) -> (text: String)
        ensures
            text@ == match *self {
                BackendError::Status(body) => status_message(body@),
            },
    {
        match self {
            BackendError::Status(body) => {
                let mut text = String::from_str("Ollama API error: ");
                text.append(body.as_str());
                text
            },
        }
    }
}

impl OllamaClient {
    /// A client for the backend and the model that the environment names,
    /// or for the usual ones.
    pub fn new(base_url: Option<String>, model: Option<String>) -> (client: Self)
        ensures
            client.base_url@ == match base_url {
                Some(url) => url@,
                None => DEFAULT_BASE_URL@,
            },
            client.model@ == match model {
                Some(name) => name@,
                None => DEFAULT_MODEL@,
            },
    {
        OllamaClient {
            base_url: match base_url {
                Some(url) => url,
                None => String::from_str(DEFAULT_BASE_URL),
            },
            model: match model {
                Some(name) => name,
                None => String::from_str(DEFAULT_MODEL),
            },
        }
    }

    /// Where embeddings are asked for.
    pub fn embeddings_url(&self) -> (url: String)
        ensures
            url@ == self.base_url@ + "/api/embeddings"@,
    {
        let mut url = self.base_url.clone();
        url.append("/api/embeddings");
        url
    }

    /// Where completions are asked for.
    pub fn chat_url(&self) -> (url: String)
        ensures
            url@ == self.base_url@ + "/api/chat"@,
    {
        let mut url = self.base_url.clone();
        url.append("/api/chat");
        url
    }

    /// The backend's answer to a chat request, given whether its status was
    /// a success, the body of its response, and, for each line of the body
    /// that is not blank, the part of the response that the line is, if it
    /// is one. A status that is no success is an error that says what the
    /// body says; else the answer is what the parts say in a row, up to and
    /// with the first that ends the response.
    pub fn generate_response(&self, success: bool, body: &str, parts: &Vec<Option<ResponsePart>>) -> (result:
        Result<String, BackendError>)
        ensures
            match result {
                Ok(answer) => success && answer@ == said_in(parts@, parts.len() as int),
                Err(BackendError::Status(text)) => !success && text@ == body@,
            },
    {
        if !success {
            return Err(BackendError::Status(String::from_str(body)));
        }
        let mut answer = String::new();
        let mut i: usize = 0;
        while i < parts.len()
            invariant
                i <= parts.len(),
                success,
                !ended_in(parts@, i as int),
                answer@ == said_in(parts@, i as int),
            decreases parts.len() - i,
        {
            match &parts[i] {
                Some(part) => {
                    answer.append(part.content.as_str());
                    if part.done {
                        proof {
                            assert(answer@ == said_in(parts@, i + 1));
                            assert(ended_in(parts@, i + 1));
                            lemma_said_after_end(parts@, i + 1, parts.len() as int);
                        }
                        return Ok(answer);
                    }
                },
                None => {
                    assert(answer@ + Seq::<char>::empty() =~= answer@);
                },
            }
            i += 1;
        }
        Ok(answer)
    }
}

/// After the line that ends a response nothing more is said.
proof fn lemma_said_after_end(parts: Seq<Option<ResponsePart>>, n: int, m: int)
    requires
        0 <= n <= m,
        ended_in(parts, n),
    ensures
        said_in(parts, m) == said_in(parts, n),
    decreases m - n,
{
    if n < m {
        lemma_said_after_end(parts, n, m - 1);
        let i = choose|i: int| 0 <= i < n && i < parts.len() && (#[trigger] parts[i]) is Some && parts[i]->0.done;
        assert(ended_in(parts, m - 1));
    }
}

} // verus!
