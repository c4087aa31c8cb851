use vstd::prelude::*;

verus! {

/// Query arguments that select the language of a response.
pub struct LangQueryArgs {
    pub lang: Option<String>,
}

impl LangQueryArgs {
    /// Whether the caller asked for English: true exactly when a language is
    /// given and it is the two letters `en`.
    pub fn should_use_english(&self) -> (english: bool)
        ensures
            english == (self.lang matches Some(code) && code@ == "en"@),
    {
        match &self.lang {
            Some(code) => {
                proof {
                    reveal_strlit("en");
                }
                let text = code.as_str();
                let english = text.unicode_len() == 2 && text.get_char(0) == 'e' && text.get_char(
                    1,
                ) == 'n';
                assert(english ==> code@ =~= "en"@);
                english
            },
            None => false,
        }
    }
}

} // verus!
