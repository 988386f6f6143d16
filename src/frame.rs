use vstd::prelude::*;

verus! {

/// Code-object flag: the function is a native coroutine.
pub const CO_COROUTINE: i32 = 0x0080;

/// Code-object flag: the generator is decorated to be awaitable.
pub const CO_ITERABLE_COROUTINE: i32 = 0x0100;

/// Code-object flag: the function is an asynchronous generator.
pub const CO_ASYNC_GENERATOR: i32 = 0x0200;

/// Text used for a name that the runtime could not supply.
pub const MISSING_NAME: &'static str = "<null>";

/// The names and flags of an activation's code object, as read from the
/// runtime. A name is absent when the runtime handed back no text for it.
pub struct RawCode {
    pub flags: i32,
    pub file_name: Option<String>,
    pub func_name: Option<String>,
}

/// What the runtime exposes of the activation that raised an event.
/// `address` is zero for a null frame handle; `code` is absent when the
/// frame has no code object; `stack_top_set` tells whether the frame still
/// holds its saved evaluation stack (a paused, unfinished activation).
pub struct RawFrame {
    pub address: usize,
    pub code: Option<RawCode>,
    pub stack_top_set: bool,
}

/// Why an activation could not be resolved.
#[derive(Clone, Copy, Debug, PartialEq, Eq, Structural)]
pub enum MalformedFrame {
    NullFrame,
    NullCode,
}

impl MalformedFrame {
    /// A short description of the fault, for logging.
    pub fn message(&self) -> (r: &'static str) {
        match self {
            MalformedFrame::NullFrame => "frame is null",
            MalformedFrame::NullCode => "f_code is null",
        }
    }
}

/// The resolved identity and description of one activation.
pub struct FrameData {
    pub func_name: String,
    pub file_name: String,
    pub identifier: usize,
    pub is_suspended_resumable: bool,
}

/// The mathematical content of a `FrameData`.
pub struct FrameView {
    pub ident: usize,
    pub file: Seq<char>,
    pub func: Seq<char>,
    pub suspended: bool,
}

impl View for FrameData {
    type V = FrameView;

    open spec fn view(&self) -> FrameView {
        FrameView {
            ident: self.identifier,
            file: self.file_name@,
            func: self.func_name@,
            suspended: self.is_suspended_resumable,
        }
    }
}

/// Whether the code flags mark a coroutine, an awaitable generator or an
/// asynchronous generator.
pub open spec fn is_resumable_kind(flags: i32) -> bool {
    flags & (CO_COROUTINE | CO_ITERABLE_COROUTINE | CO_ASYNC_GENERATOR) != 0
}

/// The text of a name, or the placeholder when it is missing.
pub open spec fn name_text(name: Option<String>) -> Seq<char> {
    match name {
        Some(s) => s@,
        None => MISSING_NAME@,
    }
}

/// The activation described by a well-formed raw frame.
pub open spec fn resolved(raw: RawFrame) -> FrameView
    recommends
        raw.code is Some,
{
    let code = raw.code->Some_0;
    FrameView {
        ident: raw.address,
        file: name_text(code.file_name),
        func: name_text(code.func_name),
        suspended: is_resumable_kind(code.flags) && raw.stack_top_set,
    }
}

fn name_or_placeholder(name: Option<String>) -> (r: String)
    ensures
        r@ == name_text(name),
{
    match name {
        Some(s) => s,
        None => MISSING_NAME.to_owned(),
    }
}

impl FrameData {
    /// Resolves the activation's identity, names and suspension state.
    /// A null frame or a frame without code is malformed.
    pub fn try_from(raw: RawFrame) -> (r: Result<FrameData, MalformedFrame>)
        ensures
            raw.address == 0 ==> r == Err::<FrameData, MalformedFrame>(MalformedFrame::NullFrame),
            raw.address != 0 && raw.code is None ==> r == Err::<FrameData, MalformedFrame>(
                MalformedFrame::NullCode,
            ),
            raw.address != 0 && raw.code is Some ==> r is Ok && r->Ok_0@ == resolved(raw),
    {
        if raw.address == 0 {
            return Err(MalformedFrame::NullFrame);
        }
        let address = raw.address;
        let stack_top_set = raw.stack_top_set;
        match raw.code {
            None => Err(MalformedFrame::NullCode),
            Some(code) => {
                let kinds = CO_COROUTINE | CO_ITERABLE_COROUTINE | CO_ASYNC_GENERATOR;
                let resumable = code.flags & kinds != 0;
                let file_name = name_or_placeholder(code.file_name);
                let func_name = name_or_placeholder(code.func_name);
                Ok(
                    FrameData {
                        func_name,
                        file_name,
                        identifier: address,
                        is_suspended_resumable: resumable && stack_top_set,
                    },
                )
            },
        }
    }
}

} // verus!
