use oe_core::event::{EventFuncIgnoringData, EventFuncTrait, EventFuncTraitWithoutArgs, EventEnum, Event, EventInfo};
use oe_core::settings::{
    DummyWinsys, RendererShadingMode, RendererUpdateInfo, WinsysBackend, WinsysBaseTrait,
    WinsysOutput, WinsysUpdateInfo,
};
use std::cell::Cell;
use std::rc::Rc;
use oe_core::task::{Task, TaskEnum, TaskFuncIgnoringData, TaskFuncTrait, TaskFuncTraitWithoutArgs, TaskInfo, TaskOutput};

#[test]
fn defaults_match_a_fresh_window() {
    let info = WinsysUpdateInfo::default();
    assert_eq!(info.title, "");
    assert_eq!((info.res_x, info.res_y), (0, 0));
    assert!(info.vsync && !info.res_changed && !info.use_fullscreen && !info.mouse_locked);
    let out = WinsysOutput::default();
    assert_eq!(out.backend, WinsysBackend::Angle);
    assert!(!out.done && !out.mouse_moved);
    let r = RendererUpdateInfo::default();
    assert_eq!(r.shading_mode, RendererShadingMode::Regular);
    assert!(!r.use_hdr && !r.restart_renderer);
}

#[test]
fn dummy_winsys_is_done_at_once() {
    let mut w = DummyWinsys;
    w.update_events_single_thread();
    assert!(w.is_done());
    let out = w.update_window(WinsysUpdateInfo { title: "x".to_string(), ..WinsysUpdateInfo::default() });
    assert_eq!(out.update_info.title, "");
}

struct Plain;

impl TaskFuncTraitWithoutArgs for Plain {
    fn call(&self, info: &TaskInfo) -> TaskOutput {
        if info.invocations() > 1 { TaskOutput::Drop } else { TaskOutput::Keep }
    }
}

impl EventFuncTraitWithoutArgs for Plain {
    fn call(&self, info: &EventInfo) -> Vec<usize> {
        vec![info.id() + 1]
    }
}

#[test]
fn callbacks_without_payload_adapt() {
    let f = TaskFuncIgnoringData(Plain);
    let mut t: Task<TaskFuncIgnoringData<Plain>, String> = Task::new(Some(f), TaskEnum::Repeat, 1, 0);
    assert_eq!(t.execute(1, 0), TaskOutput::Keep);
    assert_eq!(t.execute(2, 0), TaskOutput::Drop);
    let direct = TaskFuncIgnoringData(Plain);
    let info_out = TaskFuncTrait::<u8>::call(&direct, &dummy_task_info(), &None);
    assert_eq!(info_out, TaskOutput::Keep);

    let mut e: Event<EventFuncIgnoringData<Plain>, String> = Event::new(Some(EventFuncIgnoringData(Plain)), EventEnum::User, 6, 0);
    assert_eq!(e.execute(1, None), vec![7]);
    let _ = EventFuncTrait::<u8>::call(&EventFuncIgnoringData(Plain), &dummy_event_info(), &None);
}

struct GrabTask(Rc<Cell<Option<TaskInfo>>>);

impl TaskFuncTrait<u8> for GrabTask {
    fn call(&self, info: &TaskInfo, _data: &Option<u8>) -> TaskOutput {
        self.0.set(Some(*info));
        TaskOutput::Keep
    }
}

struct GrabEvent(Rc<Cell<Option<EventInfo>>>);

impl EventFuncTrait<u8> for GrabEvent {
    fn call(&self, info: &EventInfo, _data: &Option<u8>) -> Vec<usize> {
        self.0.set(Some(*info));
        vec![]
    }
}

fn dummy_task_info() -> TaskInfo {
    let cell = Rc::new(Cell::new(None));
    let mut t: Task<GrabTask, u8> = Task::new(Some(GrabTask(Rc::clone(&cell))), TaskEnum::Once, 2, 0);
    t.execute(0, 3);
    let info = cell.get().unwrap();
    assert_eq!((info.id(), info.invocations(), info.thread_id(), info.get_type()), (2, 1, 3, TaskEnum::Once));
    info
}

fn dummy_event_info() -> EventInfo {
    let cell = Rc::new(Cell::new(None));
    let mut e: Event<GrabEvent, u8> = Event::new(Some(GrabEvent(Rc::clone(&cell))), EventEnum::Internal, 5, 10);
    e.execute(25, None);
    let info = cell.get().unwrap();
    assert_eq!((info.id(), info.invocations(), info.deltatime(), info.get_type()), (5, 1, 15, EventEnum::Internal));
    info
}
