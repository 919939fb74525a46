//! Outputs of the modules that a rule set imports: what callers supply, and
//! what the one-time initialization records.

use crate::error::ScanError;
use crate::rules::ModuleInfo;
use vstd::prelude::*;

verus! {

/// The output of a module: an opaque message, named by its type.
pub struct ModuleOutput {
    /// Fully qualified name of the message type.
    pub message_name: String,
    /// The encoded message.
    pub data: Vec<u8>,
}

/// What the main function of a module gave when it was invoked.
pub struct ModuleRun {
    /// Name of the module.
    pub module: String,
    /// The module's output, or why it failed.
    pub output: Result<ModuleOutput, String>,
}

/// Mathematical content of a module output.
pub struct OutputView {
    /// Fully qualified name of the message type.
    pub message_name: Seq<char>,
    /// The encoded message.
    pub data: Seq<u8>,
}

impl View for ModuleOutput {
    type V = OutputView;

    open spec fn view(&self) -> OutputView {
        OutputView { message_name: self.message_name@, data: self.data@ }
    }
}

/// Mathematical content of a module run.
pub struct RunView {
    /// Name of the module.
    pub module: Seq<char>,
    /// The module's output, or why it failed.
    pub output: Result<OutputView, String>,
}

impl View for ModuleRun {
    type V = RunView;

    open spec fn view(&self) -> RunView {
        RunView {
            module: self.module@,
            output: match self.output {
                Ok(output) => Ok(output@),
                Err(err) => Err(err),
            },
        }
    }
}

/// The contents of the outputs `list`.
pub open spec fn outputs_of(list: Seq<ModuleOutput>) -> Seq<OutputView> {
    Seq::new(list.len(), |i: int| list[i]@)
}

/// The contents of the runs `runs`.
pub open spec fn runs_of(runs: Seq<ModuleRun>) -> Seq<RunView> {
    Seq::new(runs.len(), |i: int| runs[i]@)
}

/// Position of the first output in `list` whose type is `message_name`.
pub open spec fn position_of_type(list: Seq<OutputView>, message_name: Seq<char>) -> Option<int>
    decreases list.len(),
{
    if list.len() == 0 {
        None
    } else if list[0].message_name == message_name {
        Some(0)
    } else {
        match position_of_type(list.drop_first(), message_name) {
            Some(i) => Some(i + 1),
            None => None,
        }
    }
}

/// Position of the first run in `runs` that belongs to the module `name`.
pub open spec fn position_of_run(runs: Seq<RunView>, name: Seq<char>) -> Option<int>
    decreases runs.len(),
{
    if runs.len() == 0 {
        None
    } else if runs[0].module == name {
        Some(0)
    } else {
        match position_of_run(runs.drop_first(), name) {
            Some(i) => Some(i + 1),
            None => None,
        }
    }
}

/// Whether some module of `imports` produces messages of type `message_name`.
pub open spec fn imports_type(imports: Seq<ModuleInfo>, message_name: Seq<char>) -> bool {
    exists|i: int| 0 <= i < imports.len() && (#[trigger] imports[i]).root_struct_name@ == message_name
}

/// The message type of the first module of `imports` that is named `name`.
pub open spec fn message_of_module(imports: Seq<ModuleInfo>, name: Seq<char>) -> Option<
    Seq<char>,
>
    decreases imports.len(),
{
    if imports.len() == 0 {
        None
    } else if imports[0].name@ == name {
        Some(imports[0].root_struct_name@)
    } else {
        message_of_module(imports.drop_first(), name)
    }
}

/// The message type of the module that `name` denotes among `imports`: that
/// of the first module with this name, or else `name` itself if it is the
/// message type of an imported module.
pub open spec fn resolve_module(imports: Seq<ModuleInfo>, name: Seq<char>) -> Option<Seq<char>> {
    match message_of_module(imports, name) {
        Some(message_name) => Some(message_name),
        None => if imports_type(imports, name) {
            Some(name)
        } else {
            None
        },
    }
}

/// The message type of a module of `imports` is a type that `imports`
/// produces.
pub proof fn lemma_message_of_module(imports: Seq<ModuleInfo>, name: Seq<char>)
    ensures
        match message_of_module(imports, name) {
            Some(message_name) => imports_type(imports, message_name),
            None => true,
        },
    decreases imports.len(),
{
    if imports.len() > 0 {
        if imports[0].name@ == name {
            assert(imports[0].root_struct_name@ == message_of_module(imports, name).unwrap());
        } else {
            lemma_message_of_module(imports.drop_first(), name);
            match message_of_module(imports, name) {
                Some(message_name) => {
                    let i = choose|i: int|
                        0 <= i < imports.drop_first().len() && (#[trigger] imports.drop_first()[i]).root_struct_name@
                            == message_name;
                    assert(imports[i + 1].root_struct_name@ == message_name);
                },
                None => {},
            }
        }
    }
}

/// Where [`position_of_type`] finds an output, the output has the type asked
/// for; where it finds none, no output has it.
pub proof fn lemma_position_of_type(list: Seq<OutputView>, message_name: Seq<char>)
    ensures
        match position_of_type(list, message_name) {
            Some(i) => 0 <= i < list.len() && list[i].message_name == message_name,
            None => forall|j: int| 0 <= j < list.len() ==> list[j].message_name != message_name,
        },
    decreases list.len(),
{
    if list.len() > 0 && list[0].message_name != message_name {
        lemma_position_of_type(list.drop_first(), message_name);
        match position_of_type(list.drop_first(), message_name) {
            Some(i) => {
                assert(list.drop_first()[i] == list[i + 1]);
            },
            None => {
                assert forall|j: int| 0 <= j < list.len() implies list[j].message_name
                    != message_name by {
                    if j > 0 {
                        assert(list.drop_first()[j - 1] == list[j]);
                    }
                }
            },
        }
    }
}

/// The message type of the first module of `imports` that is named `name`.
pub fn find_message_of_module<'a>(imports: &'a Vec<ModuleInfo>, name: &String) -> (found: Option<
    &'a String,
>)
    ensures
        match found {
            Some(message_name) => message_of_module(imports@, name@) == Some(message_name@),
            None => message_of_module(imports@, name@).is_none(),
        },
{
    let n = imports.len();
    let mut i: usize = 0;
    proof {
        assert(imports@.skip(0) =~= imports@);
    }
    while i < n
        invariant
            n == imports@.len(),
            i <= n,
            message_of_module(imports@, name@) == message_of_module(imports@.skip(i as int), name@),
        decreases n - i,
    {
        proof {
            assert(imports@.skip(i as int).drop_first() =~= imports@.skip(i + 1));
            assert(imports@.skip(i as int)[0] == imports@[i as int]);
        }
        if imports[i].name == *name {
            return Some(&imports[i].root_struct_name);
        }
        i += 1;
    }
    proof {
        assert(imports@.skip(n as int).len() == 0);
    }
    None
}

/// The names that the strings `names` spell.
pub open spec fn names_of(names: Seq<String>) -> Seq<Seq<char>> {
    Seq::new(names.len(), |i: int| names[i]@)
}

/// The names of the modules of `imports` that compute their output themselves
/// and for whose message type `supplied` holds no output, in import order.
pub open spec fn modules_in_need(imports: Seq<ModuleInfo>, supplied: Seq<OutputView>) -> Seq<
    Seq<char>,
>
    decreases imports.len(),
{
    if imports.len() == 0 {
        Seq::empty()
    } else {
        let head = modules_in_need(imports.drop_last(), supplied);
        let module = imports.last();
        if module.has_main && position_of_type(supplied, module.root_struct_name@).is_none() {
            head.push(module.name@)
        } else {
            head
        }
    }
}

/// Mathematical content of the module table.
pub struct ModuleTable {
    /// Outputs supplied by the caller and not yet consumed.
    pub supplied: Seq<OutputView>,
    /// Outputs recorded by the initialization, in import order.
    pub outputs: Seq<OutputView>,
}

impl ModuleTable {
    /// The table after the caller supplied `output`: it replaces an output of
    /// the same type supplied before, or else joins the supplied outputs.
    pub open spec fn supply(self, output: OutputView) -> ModuleTable {
        match position_of_type(self.supplied, output.message_name) {
            Some(i) => ModuleTable { supplied: self.supplied.update(i, output), ..self },
            None => ModuleTable { supplied: self.supplied.push(output), ..self },
        }
    }

    /// The table after the module `module` was initialized, or the error
    /// that stops the initialization. An output that the caller supplied for
    /// the module's message type is consumed and recorded. Otherwise, if the
    /// module has a main function, what its run gave decides: an output is
    /// recorded, a failure stops the initialization. A module without
    /// supplied output and without a run records nothing.
    pub open spec fn initialize_one(self, module: ModuleInfo, runs: Seq<RunView>) -> Result<
        ModuleTable,
        ScanError,
    > {
        match position_of_type(self.supplied, module.root_struct_name@) {
            Some(i) => Ok(
                ModuleTable {
                    supplied: self.supplied.remove(i),
                    outputs: self.outputs.push(self.supplied[i]),
                },
            ),
            None => if module.has_main {
                match position_of_run(runs, module.name@) {
                    Some(i) => match runs[i].output {
                        Ok(output) => Ok(
                            ModuleTable { outputs: self.outputs.push(output), ..self },
                        ),
                        Err(err) => Err(ScanError::ModuleError { module: module.name, err }),
                    },
                    None => Ok(self),
                }
            } else {
                Ok(self)
            },
        }
    }

    /// The table after the modules `imports` were initialized in order, and
    /// the error that stopped the initialization, if one did. Modules after
    /// a failing one are not initialized.
    pub open spec fn initialize_all(self, imports: Seq<ModuleInfo>, runs: Seq<RunView>) -> (
        ModuleTable,
        Option<ScanError>,
    )
        decreases imports.len(),
    {
        if imports.len() == 0 {
            (self, None)
        } else {
            match self.initialize_one(imports[0], runs) {
                Ok(next) => next.initialize_all(imports.drop_first(), runs),
                Err(err) => (self, Some(err)),
            }
        }
    }
}

/// Position of the first output in `list` whose type is `message_name`.
fn find_type(list: &Vec<ModuleOutput>, message_name: &String) -> (at: Option<usize>)
    ensures
        match at {
            Some(i) => position_of_type(outputs_of(list@), message_name@) == Some(i as int) && i
                < list@.len() && list@[i as int].message_name@ == message_name@,
            None => position_of_type(outputs_of(list@), message_name@).is_none(),
        },
{
    let n = list.len();
    let mut i: usize = 0;
    proof {
        assert(outputs_of(list@).skip(0) =~= outputs_of(list@));
    }
    while i < n
        invariant
            n == list@.len(),
            i <= n,
            position_of_type(outputs_of(list@), message_name@) == match position_of_type(
                outputs_of(list@).skip(i as int),
                message_name@,
            ) {
                Some(k) => Some(k + i),
                None => None,
            },
        decreases n - i,
    {
        proof {
            let all = outputs_of(list@);
            assert(all.skip(i as int).drop_first() =~= all.skip(i + 1));
            assert(all.skip(i as int)[0] == list@[i as int]@);
        }
        if list[i].message_name == *message_name {
            return Some(i);
        }
        i += 1;
    }
    proof {
        assert(outputs_of(list@).skip(n as int).len() == 0);
    }
    None
}

/// Position of the first run in `runs` that belongs to the module `name`.
fn find_run(runs: &Vec<ModuleRun>, name: &String) -> (at: Option<usize>)
    ensures
        match at {
            Some(i) => position_of_run(runs_of(runs@), name@) == Some(i as int) && i < runs@.len(),
            None => position_of_run(runs_of(runs@), name@).is_none(),
        },
{
    let n = runs.len();
    let mut i: usize = 0;
    proof {
        assert(runs_of(runs@).skip(0) =~= runs_of(runs@));
    }
    while i < n
        invariant
            n == runs@.len(),
            i <= n,
            position_of_run(runs_of(runs@), name@) == match position_of_run(
                runs_of(runs@).skip(i as int),
                name@,
            ) {
                Some(k) => Some(k + i),
                None => None,
            },
        decreases n - i,
    {
        proof {
            let all = runs_of(runs@);
            assert(all.skip(i as int).drop_first() =~= all.skip(i + 1));
            assert(all.skip(i as int)[0] == runs@[i as int]@);
        }
        if runs[i].module == *name {
            return Some(i);
        }
        i += 1;
    }
    proof {
        assert(runs_of(runs@).skip(n as int).len() == 0);
    }
    None
}

/// A copy of a byte string.
fn copy_bytes(bytes: &Vec<u8>) -> (copy: Vec<u8>)
    ensures
        copy@ == bytes@,
{
    crate::layout::copy_out(bytes, 0, bytes.len())
}

/// A copy of a module output.
fn copy_output(output: &ModuleOutput) -> (copy: ModuleOutput)
    ensures
        copy@ == output@,
{
    proof {
        assert(output.data@.subrange(0, output.data@.len() as int) =~= output.data@);
    }
    ModuleOutput { message_name: output.message_name.clone(), data: copy_bytes(&output.data) }
}

/// The module outputs of a scanner.
pub struct ModuleOutputs {
    user_provided: Vec<ModuleOutput>,
    outputs: Vec<ModuleOutput>,
}

impl View for ModuleOutputs {
    type V = ModuleTable;

    closed spec fn view(&self) -> ModuleTable {
        ModuleTable {
            supplied: outputs_of(self.user_provided@),
            outputs: outputs_of(self.outputs@),
        }
    }
}

impl ModuleOutputs {
    /// A table without outputs.
    pub fn new() -> (table: ModuleOutputs)
        ensures
            table@.supplied == Seq::<OutputView>::empty(),
            table@.outputs == Seq::<OutputView>::empty(),
    {
        let table = ModuleOutputs { user_provided: Vec::new(), outputs: Vec::new() };
        proof {
            assert(table@.supplied =~= Seq::<OutputView>::empty());
            assert(table@.outputs =~= Seq::<OutputView>::empty());
        }
        table
    }

    /// Takes an output that the caller supplies for a module. An output whose
    /// type no imported module produces is rejected as belonging to an
    /// unknown module, and nothing changes.
    pub fn set_module_output(&mut self, imports: &Vec<ModuleInfo>, output: ModuleOutput) -> (result:
        Result<(), ScanError>)
        ensures
            imports_type(imports@, output.message_name@) ==> result is Ok && final(self)@ == old(
                self,
            )@.supply(output@),
            !imports_type(imports@, output.message_name@) ==> final(self)@ == old(self)@ && result
                == Err::<(), ScanError>(ScanError::UnknownModule { module: output.message_name }),
    {
        let n = imports.len();
        let mut known = false;
        let mut i: usize = 0;
        while i < n
            invariant
                n == imports@.len(),
                i <= n,
                known == exists|k: int|
                    0 <= k < i && (#[trigger] imports@[k]).root_struct_name@ == output.message_name@,
            decreases n - i,
        {
            if imports[i].root_struct_name == output.message_name {
                known = true;
            }
            i += 1;
        }
        if !known {
            return Err(ScanError::UnknownModule { module: output.message_name });
        }
        let ghost supplied = old(self)@.supply(output@);
        match find_type(&self.user_provided, &output.message_name) {
            Some(at) => {
                self.user_provided.set(at, output);
            },
            None => {
                self.user_provided.push(output);
            },
        }
        proof {
            assert(self@.supplied =~= supplied.supplied);
            assert(self@.outputs =~= supplied.outputs);
        }
        Ok(())
    }

    /// The modules whose main function has to be invoked for the
    /// initialization: those that compute their output themselves and have
    /// none supplied, in import order.
    pub fn modules_to_run(&self, imports: &Vec<ModuleInfo>) -> (names: Vec<String>)
        ensures
            names_of(names@) == modules_in_need(imports@, self@.supplied),
    {
        let mut names: Vec<String> = Vec::new();
        let n = imports.len();
        let mut i: usize = 0;
        proof {
            assert(names_of(names@) =~= modules_in_need(imports@.take(0), self@.supplied));
        }
        while i < n
            invariant
                n == imports@.len(),
                i <= n,
                names_of(names@) == modules_in_need(imports@.take(i as int), self@.supplied),
            decreases n - i,
        {
            let module = &imports[i];
            let supplied = find_type(&self.user_provided, &module.root_struct_name);
            proof {
                assert(imports@.take(i + 1).drop_last() =~= imports@.take(i as int));
                assert(imports@.take(i + 1).last() == imports@[i as int]);
            }
            let ghost before = names@;
            if module.has_main && supplied.is_none() {
                names.push(module.name.clone());
                proof {
                    assert(names_of(names@) =~= names_of(before).push(module.name@));
                }
            }
            i += 1;
        }
        proof {
            assert(imports@.take(n as int) =~= imports@);
        }
        names
    }

    /// Initializes the imported modules in import order, given what the
    /// main functions of the modules in need gave. Stops at the first module
    /// whose main function failed, and returns that failure.
    pub fn initialize_modules(&mut self, imports: &Vec<ModuleInfo>, runs: &Vec<ModuleRun>) -> (result:
        Result<(), ScanError>)
        ensures
            final(self)@ == old(self)@.initialize_all(imports@, runs_of(runs@)).0,
            match old(self)@.initialize_all(imports@, runs_of(runs@)).1 {
                Some(err) => result == Err::<(), ScanError>(err),
                None => result is Ok,
            },
    {
        let n = imports.len();
        let mut i: usize = 0;
        proof {
            assert(imports@.skip(0) =~= imports@);
        }
        while i < n
            invariant
                n == imports@.len(),
                i <= n,
                old(self)@.initialize_all(imports@, runs_of(runs@)) == self@.initialize_all(
                    imports@.skip(i as int),
                    runs_of(runs@),
                ),
            decreases n - i,
        {
            let module = &imports[i];
            proof {
                assert(imports@.skip(i as int).drop_first() =~= imports@.skip(i + 1));
                assert(imports@.skip(i as int)[0] == imports@[i as int]);
            }
            let ghost before = self@;
            let ghost next = before.initialize_one(*module, runs_of(runs@));
            match find_type(&self.user_provided, &module.root_struct_name) {
                Some(at) => {
                    let output = self.user_provided.remove(at);
                    self.outputs.push(output);
                    proof {
                        assert(self@.supplied =~= next->Ok_0.supplied);
                        assert(self@.outputs =~= next->Ok_0.outputs);
                    }
                },
                None => {
                    if module.has_main {
                        match find_run(runs, &module.name) {
                            Some(at) => {
                                match &runs[at].output {
                                    Ok(output) => {
                                        self.outputs.push(copy_output(output));
                                        proof {
                                            assert(runs_of(runs@)[at as int] == runs@[at as int]@);
                                            assert(self@.supplied =~= next->Ok_0.supplied);
                                            assert(self@.outputs =~= next->Ok_0.outputs);
                                        }
                                    },
                                    Err(err) => {
                                        proof {
                                            assert(runs_of(runs@)[at as int] == runs@[at as int]@);
                                        }
                                        return Err(
                                            ScanError::ModuleError {
                                                module: module.name.clone(),
                                                err: err.clone(),
                                            },
                                        );
                                    },
                                }
                            },
                            None => {},
                        }
                    }
                },
            }
            i += 1;
        }
        proof {
            assert(imports@.skip(n as int).len() == 0);
        }
        Ok(())
    }

    /// Drops the recorded outputs. Supplied outputs stay.
    pub fn clear_outputs(&mut self)
        ensures
            final(self)@ == (ModuleTable { outputs: Seq::empty(), ..old(self)@ }),
    {
        self.outputs = Vec::new();
        proof {
            assert(self@.outputs =~= Seq::<OutputView>::empty());
        }
    }

    /// The output recorded for the message type `message_name`, if any.
    pub fn module_output(&self, message_name: &String) -> (output: Option<&ModuleOutput>)
        ensures
            match position_of_type(self@.outputs, message_name@) {
                Some(i) => output.is_some() && 0 <= i < self@.outputs.len() && output.unwrap()@
                    == self@.outputs[i],
                None => output.is_none(),
            },
    {
        proof {
            lemma_position_of_type(self@.outputs, message_name@);
        }
        match find_type(&self.outputs, message_name) {
            Some(at) => Some(&self.outputs[at]),
            None => None,
        }
    }

    /// The recorded outputs, in the order in which they were recorded.
    pub fn module_outputs(&self) -> (outputs: &Vec<ModuleOutput>)
        ensures
            outputs_of(outputs@) == self@.outputs,
    {
        &self.outputs
    }
}

} // verus!
