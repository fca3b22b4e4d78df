//! The dialog of a server and its test of the connection. The answer of a test may
//! come late, when the dialog was closed or opened again.

use crate::text::concat2;
use vstd::prelude::*;

verus! {

/// The dialog of a server.
#[derive(Debug)]
pub struct ServerDialog {
    pub open: bool,
    /// Counts how often the dialog was opened and closed.
    pub generation: u32,
    /// Whether a test of the connection runs.
    pub testing: bool,
    pub feedback: String,
}

/// What a `ServerDialog` holds.
#[verifier::ext_equal]
pub ghost struct ServerDialogView {
    pub open: bool,
    pub generation: u32,
    pub testing: bool,
    pub feedback: Seq<char>,
}

impl View for ServerDialog {
    type V = ServerDialogView;

    open spec fn view(&self) -> ServerDialogView {
        ServerDialogView {
            open: self.open,
            generation: self.generation,
            testing: self.testing,
            feedback: self.feedback@,
        }
    }
}

/// The generation after another; after the last comes the first again.
pub open spec fn next_generation(n: u32) -> u32 {
    if n == u32::MAX {
        0
    } else {
        (n + 1) as u32
    }
}

/// What is said of a test that ended.
pub open spec fn test_text(result: Result<(), String>) -> Seq<char> {
    match result {
        Ok(_) => "连接成功，配置尚未保存"@,
        Err(e) => "连接失败："@ + e@,
    }
}

impl ServerDialogView {
    /// The dialog after it was opened, or closed: what a test that still runs
    /// answers is of no interest any more.
    pub open spec fn turned(self, open: bool) -> ServerDialogView {
        ServerDialogView {
            open,
            generation: next_generation(self.generation),
            testing: false,
            feedback: Seq::empty(),
        }
    }

    /// The dialog after a test was asked for, with what is wrong with its form. No
    /// second one starts while one runs.
    pub open spec fn asked(self, fault: Option<Seq<char>>) -> ServerDialogView {
        if self.testing {
            self
        } else {
            match fault {
                Some(e) => ServerDialogView { feedback: "无法测试："@ + e, ..self },
                None => ServerDialogView {
                    testing: true,
                    feedback: "正在连接服务器…"@,
                    ..self
                },
            }
        }
    }

    /// The dialog after a test of a generation ended. It counts only where the
    /// dialog is open and still the same.
    pub open spec fn answered(self, generation: u32, result: Result<(), String>)
        -> ServerDialogView {
        if self.open && self.generation == generation {
            ServerDialogView { testing: false, feedback: test_text(result), ..self }
        } else {
            self
        }
    }
}

impl ServerDialog {
    /// A dialog that was not opened yet.
    pub fn new() -> (r: Self)
        ensures
            r@ == (ServerDialogView {
                open: false,
                generation: 0,
                testing: false,
                feedback: Seq::empty(),
            }),
    {
        let r = ServerDialog {
            open: false,
            generation: 0,
            testing: false,
            feedback: String::new(),
        };
        proof {
            assert(r.feedback@ =~= Seq::<char>::empty());
        }
        r
    }

    /// Opens or closes the dialog.
    pub fn turn(&mut self, open: bool)
        ensures
            final(self)@ == old(self)@.turned(open),
    {
        let ghost sv = self@;
        self.open = open;
        self.generation = if self.generation == u32::MAX {
            0
        } else {
            self.generation + 1
        };
        self.testing = false;
        self.feedback = String::new();
        proof {
            assert(self@ =~= sv.turned(open));
        }
    }

    /// Asks for a test; gives the generation to test for, or nothing where none
    /// starts.
    pub fn ask(&mut self, fault: &Option<String>) -> (r: Option<u32>)
        ensures
            final(self)@ == old(self)@.asked(
                match *fault {
                    Some(e) => Some(e@),
                    None => None,
                },
            ),
            r == (if !old(self).testing && *fault is None {
                Some(old(self).generation)
            } else {
                None
            }),
    {
        if self.testing {
            return None;
        }
        match fault {
            Some(e) => {
                self.feedback = concat2("无法测试：", e.as_str());
                None
            },
            None => {
                self.testing = true;
                self.feedback = "正在连接服务器…".to_owned();
                Some(self.generation)
            },
        }
    }

    /// Takes the answer of a test.
    pub fn answer(&mut self, generation: u32, result: &Result<(), String>)
        ensures
            final(self)@ == old(self)@.answered(generation, *result),
    {
        if self.open && self.generation == generation {
            self.testing = false;
            self.feedback = match result {
                Ok(_) => "连接成功，配置尚未保存".to_owned(),
                Err(e) => concat2("连接失败：", e.as_str()),
            };
        }
    }

    /// Whether the server may be saved: not while a test runs.
    pub fn may_save(&self) -> (r: bool)
        ensures
            r == !self.testing,
    {
        !self.testing
    }
}

/// How often the dialog was opened and closed after this.
pub open spec fn turned_times(d: ServerDialogView, turns: Seq<bool>) -> ServerDialogView
    decreases turns.len(),
{
    if turns.len() == 0 {
        d
    } else {
        turned_times(d, turns.drop_last()).turned(turns.last())
    }
}

proof fn lemma_generation(d: ServerDialogView, turns: Seq<bool>)
    ensures
        turned_times(d, turns).generation == (d.generation + turns.len()) % 0x1_0000_0000,
    decreases turns.len(),
{
    if turns.len() > 0 {
        lemma_generation(d, turns.drop_last());
        let n = d.generation + turns.len() - 1;
        assert((n + 1) % 0x1_0000_0000 == (if n % 0x1_0000_0000 == 0xffff_ffff {
            0
        } else {
            n % 0x1_0000_0000 + 1
        }));
    }
}

/// The answer of a test does not reach a dialog that was closed or opened again
/// since, however often; only the full round of all generations brings the same
/// one back.
pub proof fn law_late_answers_do_not_count(
    d: ServerDialogView,
    turns: Seq<bool>,
    result: Result<(), String>,
)
    requires
        0 < turns.len() < 0x1_0000_0000,
    ensures
        turned_times(d, turns).answered(d.generation, result) == turned_times(d, turns),
{
    lemma_generation(d, turns);
    let g = d.generation as int;
    let n = turns.len() as int;
    assert((g + n) % 0x1_0000_0000 != g) by {
        if g + n < 0x1_0000_0000 {
            assert((g + n) % 0x1_0000_0000 == g + n);
        } else {
            assert((g + n) % 0x1_0000_0000 == g + n - 0x1_0000_0000);
        }
    }
}

/// While a test runs no second one starts.
pub proof fn law_one_test_at_a_time(d: ServerDialogView)
    ensures
        d.asked(None).testing,
        d.asked(None).asked(None) == d.asked(None),
{
}

} // verus!
