//! Operating-system commands: only `0;<text>` (set the window title) is
//! implemented; the text goes to the title sink.

use vstd::prelude::*;

use crate::parser::handler_context::{CtxView, HandlerContext};
use crate::parser::params::{chars_of, strip_trailing, strip_trailing_range};

verus! {

/// The effect of an operating-system command: a `0;`-prefixed body forwards
/// its text (trailing BELs removed) to the title sink, when that text is
/// nonempty; everything else changes nothing.
pub open spec fn osc_apply(c: CtxView, s: Seq<char>) -> CtxView {
    if s.len() >= 2 && s[0] == '0' && s[1] == ';' {
        let title = strip_trailing(s.skip(2), 0x07 as char);
        if title.len() > 0 {
            CtxView { titles: c.titles.push(title), ..c }
        } else {
            c
        }
    } else {
        c
    }
}

/// The handler of operating-system commands.
pub struct OscSequenceHandler;

impl OscSequenceHandler {
    /// Applies an operating-system command to the session: a title command
    /// forwards its text to the title sink; anything else changes nothing.
    #[verifier::rlimit(50)]
    pub fn handle(&self, ctx: &mut HandlerContext, sequence: &str)
        requires
            old(ctx)@.wf(),
        ensures
            final(ctx)@ == osc_apply(old(ctx)@, sequence@),
            final(ctx)@.wf(),
    {
        let cs = chars_of(sequence);
        let n = cs.len();
        if n >= 2 && cs[0] == '0' && cs[1] == ';' {
            let tend = strip_trailing_range(&cs, 2, n, '\u{7}');
            proof {
                assert(cs@.subrange(2, n as int) =~= cs@.skip(2));
            }
            if tend > 2 {
                let title = crate::parser::params::string_of_chars(&cs, 2, tend);
                ctx.title_updates.push(title);
                proof {
                    assert(ctx@.titles =~= old(ctx)@.titles.push(
                        strip_trailing(sequence@.skip(2), 0x07 as char),
                    ));
                    assert(ctx@.scrollback =~= old(ctx)@.scrollback);
                    assert(ctx@ =~= osc_apply(old(ctx)@, sequence@));
                }
            }
        }
    }
}

} // verus!
