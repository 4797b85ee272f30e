//! The errors the library's decisions produce, by category. The category
//! prefixes the message in logs; the user only ever reads the message.
use vstd::prelude::*;
use vstd::string::StringExecFns;

verus! {

#[derive(Debug, PartialEq, Eq)]
pub enum AppError {
    Audio(String),
    Stt(String),
    Model(String),
    Llm(String),
    Output(String),
    Settings(String),
    /// Invalid operation for the current pipeline state (such as starting a
    /// recording while one is already running).
    State(String),
}

impl Clone for AppError {
    fn clone(&self) -> (r: Self)
        ensures
            r == *self,
    {
        match self {
            AppError::Audio(m) => AppError::Audio(m.clone()),
            AppError::Stt(m) => AppError::Stt(m.clone()),
            AppError::Model(m) => AppError::Model(m.clone()),
            AppError::Llm(m) => AppError::Llm(m.clone()),
            AppError::Output(m) => AppError::Output(m.clone()),
            AppError::Settings(m) => AppError::Settings(m.clone()),
            AppError::State(m) => AppError::State(m.clone()),
        }
    }
}

/// The bare message of an error.
pub open spec fn user_message_spec(e: AppError) -> Seq<char> {
    match e {
        AppError::Audio(m) => m@,
        AppError::Stt(m) => m@,
        AppError::Model(m) => m@,
        AppError::Llm(m) => m@,
        AppError::Output(m) => m@,
        AppError::Settings(m) => m@,
        AppError::State(m) => m@,
    }
}

/// The message with its category prefix, as logs show it.
pub open spec fn describe_spec(e: AppError) -> Seq<char> {
    match e {
        AppError::Audio(m) => "audio error: "@ + m@,
        AppError::Stt(m) => "transcription error: "@ + m@,
        AppError::Model(m) => "model error: "@ + m@,
        AppError::Llm(m) => "AI provider error: "@ + m@,
        AppError::Output(m) => "output error: "@ + m@,
        AppError::Settings(m) => "settings error: "@ + m@,
        AppError::State(m) => m@,
    }
}

impl AppError {
    /// The bare message without the category prefix, for HUD display.
    pub fn user_message(&self) -> (r: String)
        ensures
            r@ == user_message_spec(*self),
    {
        match self {
            AppError::Audio(m) => m.clone(),
            AppError::Stt(m) => m.clone(),
            AppError::Model(m) => m.clone(),
            AppError::Llm(m) => m.clone(),
            AppError::Output(m) => m.clone(),
            AppError::Settings(m) => m.clone(),
            AppError::State(m) => m.clone(),
        }
    }

    /// The message with its category prefix (`"model error: ..."`); state
    /// errors carry none.
    pub fn describe(&self) -> (r: String)
        ensures
            r@ == describe_spec(*self),
    {
        let (prefix, m) = match self {
            AppError::Audio(m) => ("audio error: ", m),
            AppError::Stt(m) => ("transcription error: ", m),
            AppError::Model(m) => ("model error: ", m),
            AppError::Llm(m) => ("AI provider error: ", m),
            AppError::Output(m) => ("output error: ", m),
            AppError::Settings(m) => ("settings error: ", m),
            AppError::State(m) => ("", m),
        };
        let mut s = String::from_str(prefix);
        s.append(m.as_str());
        proof {
            reveal_strlit("");
            assert(""@ =~= Seq::<char>::empty());
        }
        s
    }
}

} // verus!
