use vstd::prelude::*;
use vstd::string::StringExecFns;
use vstd::string::StringSliceAdditionalSpecFns;
use vstd::utf8::*;
use crate::byte_search::{contains_exec, contains_sub};
use crate::chars::{lowercase, to_lowercase};
use crate::rag::RagService;
use crate::text::{join, join_exec, texts};

verus! {

/// How many chunks are retrieved for a question.
pub const TOP_K: usize = 50;

/// How deep the overview of the directory tree goes that is shown with a question.
pub const QUERY_OVERVIEW_DEPTH: usize = 8;

/// How many lines the overview has at most that is shown with a question.
pub const QUERY_OVERVIEW_ENTRIES: usize = 2000;

/// How deep the overview of the directory tree goes that is indexed.
pub const INDEX_OVERVIEW_DEPTH: usize = 4;

/// How many lines the overview has at most that is indexed.
pub const INDEX_OVERVIEW_ENTRIES: usize = 400;

/// The answer to a question for which there is no context.
pub const NO_CONTEXT_MESSAGE: &'static str = "No relevant code context found for this query.";

/// What stands between two pieces of context.
pub const CONTEXT_SEPARATOR: &'static str = "\n\n";

pub const README_HEADING: &'static str = "FILE: README.md\n";

pub const TREE_HEADING: &'static str = "DIRECTORY TREE:\n";

pub const FEEDBACK_HEADING: &'static str = "\n\nUser feedback for improvement: ";

pub const PROMPT_HEAD: &'static str = "You are an expert software engineer. Based on the provided code context and directory structure, ";

pub const PROMPT_MIDDLE: &'static str = " \n\nContext:\n";

pub const PROMPT_TAIL: &'static str = "\n\nProvide a concise summary that includes:\n- Project purpose\n- Main features\n- Technologies used\n- Architecture\n- Complete directory structure (copy exactly from the DIRECTORY TREE section in the context)\n\nBe accurate and base your answer only on the provided context. Do not invent or modify the directory structure.";

/// What is done with a question.
#[derive(Debug, Clone)]
pub enum QueryPlan {
    /// There is no context: the question is answered with this text, and the
    /// backend is not asked.
    Answer(String),
    /// The backend is asked to complete this prompt, and its response is the
    /// answer.
    Complete(String),
}

/// Whether a question is about the project as a whole.
pub open spec fn is_project_level(question: Seq<char>) -> bool {
    contains_sub(encode_utf8(lowercase(question)), "project".spec_bytes()) || contains_sub(
        encode_utf8(lowercase(question)),
        "what is".spec_bytes(),
    )
}

/// The pieces of context for a question, most important first: for a
/// question about the project, the overview of the directory tree, if there
/// is one, and the README, if there is one, come before the retrieved chunks.
pub open spec fn context_parts(
    question: Seq<char>,
    chunks: Seq<Seq<char>>,
    readme: Option<Seq<char>>,
    overview: Seq<char>,
) -> Seq<Seq<char>> {
    if is_project_level(question) {
        let with_readme = match readme {
            Some(text) => seq![README_HEADING@ + text] + chunks,
            None => chunks,
        };
        if overview.len() > 0 {
            seq![TREE_HEADING@ + overview] + with_readme
        } else {
            with_readme
        }
    } else {
        chunks
    }
}

/// How earlier feedback is put into a prompt.
pub open spec fn feedback_part(feedback: Seq<char>) -> Seq<char> {
    if feedback.len() == 0 {
        seq![]
    } else {
        FEEDBACK_HEADING@ + feedback
    }
}

/// The prompt for a question with its context.
pub open spec fn prompt_for(question: Seq<char>, feedback: Seq<char>, context: Seq<char>) -> Seq<char> {
    PROMPT_HEAD@ + question + feedback_part(feedback) + PROMPT_MIDDLE@ + context + PROMPT_TAIL@
}

/// What is done with a question, given its pieces of context.
pub open spec fn plan_for(question: Seq<char>, feedback: Seq<char>, parts: Seq<Seq<char>>) -> QueryPlanModel {
    let context = join(parts, CONTEXT_SEPARATOR@);
    if context.len() == 0 {
        QueryPlanModel::Answer(NO_CONTEXT_MESSAGE@)
    } else {
        QueryPlanModel::Complete(prompt_for(question, feedback, context))
    }
}

/// What a plan is, mathematically.
pub enum QueryPlanModel {
    Answer(Seq<char>),
    Complete(Seq<char>),
}

impl View for QueryPlan {
    type V = QueryPlanModel;

    open spec fn view(&self) -> QueryPlanModel {
        match self {
            QueryPlan::Answer(text) => QueryPlanModel::Answer(text@),
            QueryPlan::Complete(prompt) => QueryPlanModel::Complete(prompt@),
        }
    }
}

impl RagService {
    /// Whether a question is about the project as a whole, so that the
    /// README and the overview of the directory tree belong to its context.
    pub fn is_project_question(question: &str) -> (project_level: bool)
        ensures
            project_level == is_project_level(question@),
    {
        let lower = to_lowercase(question);
        let bytes = lower.as_str().as_bytes();
        contains_exec(bytes, "project".as_bytes()) || contains_exec(bytes, "what is".as_bytes())
    }

    /// Decides what is done with a question, given the texts of the chunks
    /// retrieved for it, best first, and, for a question about the project,
    /// the README where there is one and the overview of the directory tree.
    /// Without any context the question is answered at once, and the backend
    /// is not asked; else the prompt holds the question, the feedback on an
    /// earlier answer, if any, and the context.
    pub fn query_with_feedback(
        &self,
        question: &str,
        feedback: &str,
        relevant_chunks: Vec<String>,
        readme: Option<&str>,
        dir_overview: &str,
    ) -> (plan: QueryPlan)
        ensures
            plan@ == plan_for(
                question@,
                feedback@,
                context_parts(
                    question@,
                    texts(relevant_chunks@),
                    match readme {
                        Some(text) => Some(text@),
                        None => None,
                    },
                    dir_overview@,
                ),
            ),
    {
        let ghost given = texts(relevant_chunks@);
        let mut parts = relevant_chunks;
        if Self::is_project_question(question) {
            match readme {
                Some(text) => {
                    let mut entry = String::from_str(README_HEADING);
                    entry.append(text);
                    parts.insert(0, entry);
                    assert(texts(parts@) =~= seq![README_HEADING@ + text@] + given);
                },
                None => {},
            }
            if !dir_overview.is_empty() {
                let ghost with_readme = texts(parts@);
                let mut entry = String::from_str(TREE_HEADING);
                entry.append(dir_overview);
                parts.insert(0, entry);
                assert(texts(parts@) =~= seq![TREE_HEADING@ + dir_overview@] + with_readme);
            }
        }
        let context = join_exec(&parts, CONTEXT_SEPARATOR);
        if context.as_str().is_empty() {
            return QueryPlan::Answer(String::from_str(NO_CONTEXT_MESSAGE));
        }
        let mut prompt = String::from_str(PROMPT_HEAD);
        prompt.append(question);
        if !feedback.is_empty() {
            prompt.append(FEEDBACK_HEADING);
            prompt.append(feedback);
        } else {
            assert(prompt@ + feedback_part(feedback@) =~= prompt@);
        }
        prompt.append(PROMPT_MIDDLE);
        prompt.append(context.as_str());
        prompt.append(PROMPT_TAIL);
        assert(prompt@ =~= prompt_for(question@, feedback@, context@));
        QueryPlan::Complete(prompt)
    }

    /// Decides what is done with a question on which there is no feedback yet.
    pub fn query(
        &self,
        question: &str,
        relevant_chunks: Vec<String>,
        readme: Option<&str>,
        dir_overview: &str,
    ) -> (plan: QueryPlan)
        ensures
            plan@ == plan_for(
                question@,
                Seq::<char>::empty(),
                context_parts(
                    question@,
                    texts(relevant_chunks@),
                    match readme {
                        Some(text) => Some(text@),
                        None => None,
                    },
                    dir_overview@,
                ),
            ),
    {
        proof {
            reveal_strlit("");
            assert(""@ =~= Seq::<char>::empty());
        }
        self.query_with_feedback(question, "", relevant_chunks, readme, dir_overview)
    }
}

/// A question for which nothing was retrieved, and with which neither a
/// README nor an overview goes, is answered without asking the backend.
pub proof fn lemma_no_context_no_completion(question: Seq<char>, feedback: Seq<char>)
    ensures
        context_parts(question, Seq::<Seq<char>>::empty(), None, Seq::<char>::empty()) == Seq::<
            Seq<char>,
        >::empty(),
        plan_for(question, feedback, Seq::<Seq<char>>::empty()) == QueryPlanModel::Answer(NO_CONTEXT_MESSAGE@),
{
}

} // verus!
