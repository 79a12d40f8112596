//! Making a process out of an executable.

use vstd::prelude::*;

use crate::error::OsError;
use crate::mem::{PageTable, PG_SIZE};
use crate::thread::imp::{next_tid, Builder, BuilderState, Tids, PRI_DEFAULT, STACK_SIZE};
use crate::thread::manager::Manager;
use crate::trap::{Frame, FrameState};
use crate::userproc::args::{arg_bytes, args_fit, args_frame, args_page, argv_addr, setup_arguments};
use crate::userproc::children::WaitTable;
use crate::userproc::files::{File, ProcState, UserProc};

verus! {

/// What loading an executable into a page table has given.
pub struct Image {
    /// Where the program starts.
    pub entry_point: usize,
    /// The top of its stack.
    pub init_sp: usize,
    /// The topmost page of the stack, if it is mapped.
    pub stack_page: Option<Vec<u8>>,
}

/// What a new process starts from in the kernel.
pub struct Launch {
    /// Its page table, with the image in it.
    pub pagetable: PageTable,
    /// The address of the main function, which enters user space.
    pub function: usize,
    /// The address at which every kernel thread starts.
    pub thread_entry: usize,
    /// The bottom of its kernel stack.
    pub stack: usize,
}

/// A process that has been made.
pub struct Started {
    /// The id of its thread.
    pub tid: isize,
    /// The registers that it enters user space with.
    pub frame: Frame,
    /// The topmost page of its stack, with the arguments in it.
    pub stack_page: Vec<u8>,
}

/// Whether an image and some arguments make a process: it has been loaded, its
/// stack is there, and the arguments fit on it.
pub open spec fn startable(image: Result<Image, OsError>, argv: Seq<String>) -> bool {
    match image {
        Ok(image) => image.stack_page is Some && args_fit(
            arg_bytes(argv),
            image.init_sp as int,
        ),
        Err(_) => false,
    }
}

/// The registers that a program enters user space with.
pub open spec fn start_frame(image: Image, argv: Seq<String>) -> FrameState {
    let fresh = FrameState { sepc: image.entry_point, ..FrameState::zeroed() };
    args_frame(
        FrameState { x: fresh.x.update(2, image.init_sp), ..fresh },
        argv.len() as int,
        argv_addr(arg_bytes(argv), image.init_sp as int),
    )
}

/// The builder of the thread of a process.
pub open spec fn process_builder(file: File, launch: Launch) -> BuilderState {
    BuilderState {
        priority: PRI_DEFAULT,
        name: "Default"@,
        function: launch.function,
        userproc: Some(ProcState::fresh(file)),
        pagetable: Some(launch.pagetable),
    }
}

/// Executes an object file with arguments: `image` is what loading it has given.
///
/// ## Return
/// - `None`: The file could not be loaded, or the arguments do not fit. The page
///   table is to be destroyed.
/// - `Some`: The newly made process, ready to run as a child of the running thread.
pub fn execute(
    manager: &mut Manager,
    waits: &mut WaitTable,
    tids: &mut Tids,
    file: File,
    argv: &Vec<String>,
    image: Result<Image, OsError>,
    launch: Launch,
) -> (started: Option<Started>)
    requires
        old(manager)@.wf(),
        !old(manager)@.threads.contains_key(old(tids)@),
        launch.stack + STACK_SIZE <= usize::MAX,
        image matches Ok(image) ==> image.init_sp >= PG_SIZE && (image.stack_page is Some
            ==> image.stack_page->0@.len() == PG_SIZE),
    ensures
        started is Some <==> startable(image, argv@),
        match started {
            Some(started) => {
                let tid = old(tids)@;
                &&& started.tid == tid
                &&& started.frame@ == start_frame(image->Ok_0, argv@)
                &&& started.stack_page@ == args_page(
                    image->Ok_0.stack_page->0@,
                    arg_bytes(argv@),
                    image->Ok_0.init_sp as int,
                )
                &&& final(tids)@ == next_tid(tid)
                &&& final(waits)@ == old(waits)@.inserted(tid, old(manager)@.current)
                &&& final(manager)@ == old(manager)@.registered(
                    process_builder(file, launch).built(tid, launch.thread_entry, launch.stack),
                )
            },
            None => {
                &&& final(tids)@ == old(tids)@
                &&& final(waits)@ == old(waits)@
                &&& final(manager)@ == old(manager)@
            },
        },
        final(manager)@.wf(),
        final(waits)@.wf(),
        old(manager)@.below(old(tids)@) && (old(tids)@ < isize::MAX || started is None)
            ==> final(manager)@.below(final(tids)@),
        // As long as every child is below the next id, the new one is new to the table
        // and all stay below. After the highest id comes the lowest.
        old(waits)@.below(old(tids)@) ==> {
            &&& started matches Some(started) ==> {
                &&& !old(waits)@.table.contains_key(started.tid)
                &&& !old(waits)@.held.contains_key(started.tid)
            }
            &&& old(tids)@ < isize::MAX || started is None ==> final(waits)@.below(final(tids)@)
        },
{
    proof {
        use_type_invariant(&*waits);
    }
    let parent_tid = manager.current_id();
    let image = match image {
        Ok(image) => image,
        Err(_) => {
            return None;
        },
    };
    let mut frame = Frame::zeroed();
    frame.sepc = image.entry_point;
    frame.x[2] = image.init_sp;
    assert(frame@ =~= (FrameState {
        x: FrameState::zeroed().x.update(2, image.init_sp),
        sepc: image.entry_point,
        ..FrameState::zeroed()
    }));
    let stack_page = match setup_arguments(image.stack_page, image.init_sp, argv, &mut frame) {
        Ok(page) => page,
        Err(_) => {
            return None;
        },
    };
    let new_thread = Builder::new(launch.function).pagetable(launch.pagetable).userproc(
        UserProc::new(file),
    ).build(tids, launch.thread_entry, launch.stack);
    let tid = new_thread.id();
    waits.insert(tid, parent_tid);
    manager.register(new_thread);
    Some(Started { tid, frame, stack_page })
}

} // verus!
