//! What a name decides: the backend that a name asks for, what is said of an
//! architecture, and how a user's words are set into a chat.
use vstd::prelude::*;
use vstd::string::*;

use crate::config::{ArchVerdict, arch_verdict};
use crate::engine::{Backend, backend_of};
use crate::generate::chat_text;

verus! {

/// A backend is given if and only if its name asks for it and it can run: the
/// processor's where there is no window, the others where there is a GPU. The hybrid
/// one has two names.
pub proof fn lemma_backends_have_their_names(name: Seq<char>, windowed: bool, metal: bool)
    ensures
        backend_of(name, windowed, metal) == Ok::<Backend, Seq<char>>(Backend::Cpu) <==> name == "cpu"@ && !windowed,
        backend_of(name, windowed, metal) == Ok::<Backend, Seq<char>>(Backend::Metal) <==> name == "metal"@ && metal,
        backend_of(name, windowed, metal) == Ok::<Backend, Seq<char>>(Backend::Hybrid) <==> (name == "hybrid"@ || name
            == "ane"@) && metal,
        !metal && name != "cpu"@ ==> backend_of(name, windowed, metal) is Err,
{
    reveal_strlit("cpu");
    reveal_strlit("metal");
    reveal_strlit("hybrid");
    reveal_strlit("ane");
    assert("cpu"@.len() == 3 && "cpu"@[0] == 'c');
    assert("ane"@.len() == 3 && "ane"@[0] == 'a');
    assert("metal"@.len() == 5);
    assert("hybrid"@.len() == 6);
}

/// Every architecture of the third Qwen family is refused, whatever follows the
/// family's name; three architectures are tested; of any other nothing is known.
pub proof fn lemma_architectures_are_told_apart(arch: Seq<char>, rest: Seq<char>)
    ensures
        arch_verdict("Qwen3"@ + rest) == ArchVerdict::Refused,
        arch_verdict("LlamaForCausalLM"@) == ArchVerdict::Tested,
        arch_verdict("Qwen2ForCausalLM"@) == ArchVerdict::Tested,
        arch_verdict("MistralForCausalLM"@) == ArchVerdict::Tested,
        arch_verdict(arch) == ArchVerdict::Refused ==> arch.len() >= 5 && arch.take(5) == "Qwen3"@,
        arch_verdict(arch) == ArchVerdict::Tested ==> arch == "LlamaForCausalLM"@ || arch == "Qwen2ForCausalLM"@ || arch
            == "MistralForCausalLM"@,
{
    reveal_strlit("Qwen3");
    reveal_strlit("LlamaForCausalLM");
    reveal_strlit("Qwen2ForCausalLM");
    reveal_strlit("MistralForCausalLM");
    let q = "Qwen3"@;
    assert(q.len() == 5 && q[0] == 'Q' && q[4] == '3');
    assert("LlamaForCausalLM"@[0] == 'L');
    assert("MistralForCausalLM"@[0] == 'M');
    assert("Qwen2ForCausalLM"@[4] == '2');
    assert((q + rest).take(5) =~= q);
    assert(q.is_prefix_of(q + rest));
    assert forall|s: Seq<char>| #[trigger] q.is_prefix_of(s) implies s.len() >= 5 && s.take(5) == q && s[0] == 'Q' && s[4]
        == '3' by {
        assert(s.take(5) =~= q);
        assert(s.take(5)[0] == q[0] && s.take(5)[4] == q[4]);
    }
}

/// A user's words stand in a chat as they are: one turn of the user, closed, and one
/// of the assistant, open.
pub proof fn lemma_chat_holds_the_words(user: Seq<char>)
    ensures
        ({
            let t = chat_text(user);
            let (a, b) = ("<|im_start|>"@, "<|im_end|>"@);
            t == a + "user\n"@ + user + b + "\n"@ + a + "assistant\n"@
        }),
{
    reveal_strlit("<|im_start|>");
    reveal_strlit("<|im_end|>");
    reveal_strlit("user\n");
    reveal_strlit("\n");
    reveal_strlit("assistant\n");
    reveal_strlit("<|im_start|>user\n");
    reveal_strlit("<|im_end|>\n<|im_start|>assistant\n");
    assert("<|im_start|>user\n"@ =~= "<|im_start|>"@ + "user\n"@);
    assert("<|im_end|>\n<|im_start|>assistant\n"@ =~= "<|im_end|>"@ + "\n"@ + "<|im_start|>"@ + "assistant\n"@);
    assert(chat_text(user) =~= "<|im_start|>"@ + "user\n"@ + user + "<|im_end|>"@ + "\n"@ + "<|im_start|>"@
        + "assistant\n"@);
}

} // verus!
