//! Options handed to the transcription service.
//!
//! The transcription call itself is an external collaborator (one async
//! operation: encoded clip + options -> text); only the data it is driven
//! with is modelled here.

use vstd::prelude::*;
use vstd::string::{StrSliceExecFns, StringExecFns};

verus! {

/// Options passed along with one encoded clip to the transcription service.
#[derive(Debug)]
pub struct TranscribeOpts {
    /// Identifier of the speech-to-text model to use.
    pub model: String,
    /// Language of the input audio as an ISO-639-1 code, if known.
    pub language: Option<String>,
    /// Guidance text for style or unfamiliar words, if any.
    pub prompt: Option<String>,
}

fn clone_opt_string(o: &Option<String>) -> (r: Option<String>)
    ensures
        r == *o,
{
    match o {
        Some(s) => Some(s.clone()),
        None => None,
    }
}

impl Clone for TranscribeOpts {
    fn clone(&self) -> (r: Self)
        ensures
            r == *self,
    {
        TranscribeOpts {
            model: self.model.clone(),
            language: clone_opt_string(&self.language),
            prompt: clone_opt_string(&self.prompt),
        }
    }
}

/// The first ten characters of a prompt, with a trailing ellipsis.
pub open spec fn spec_preview(prompt: Seq<char>) -> Seq<char> {
    (if prompt.len() <= 10 {
        prompt
    } else {
        prompt.subrange(0, 10)
    }) + "..."@
}

/// The logging form of the options: the model, the language if present,
/// and only a short preview of the prompt, never its whole text.
pub open spec fn spec_opts_display(o: TranscribeOpts) -> Seq<char> {
    "model="@ + o.model@ + (match o.language {
        Some(l) => ", language="@ + l@,
        None => Seq::<char>::empty(),
    }) + (match o.prompt {
        Some(p) => ", preview="@ + spec_preview(p@),
        None => Seq::<char>::empty(),
    })
}

impl TranscribeOpts {
    /// Rendering used for logging; truncates the prompt to a short preview.
    pub fn display(&self) -> (r: String)
        ensures
            r@ == spec_opts_display(*self),
    {
        let mut s = String::from_str("model=");
        s.append(self.model.as_str());
        match &self.language {
            Some(l) => {
                s.append(", language=");
                s.append(l.as_str());
            },
            None => {},
        }
        match &self.prompt {
            Some(p) => {
                s.append(", preview=");
                let len = p.as_str().unicode_len();
                let take = if len < 10 {
                    len
                } else {
                    10
                };
                let pre = p.as_str().substring_char(0, take);
                s.append(pre);
                s.append("...");
            },
            None => {},
        }
        proof {
            assert(s@ =~= spec_opts_display(*self));
        }
        s
    }
}

} // verus!
