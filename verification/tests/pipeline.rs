use ip_notify::dns_client::{Dig, DigCommand};
use ip_notify::error::DnsError;
use ip_notify::message::Message;
use ip_notify::notifier::{summarize, Notifier};
use ip_notify::pipeline::{run_pipeline, PipelineState};
use ip_notify::scheduler::{Scheduler, SchedulerAction, SchedulerEvent};

#[test]
fn send_to_single_channel() {
    let bot = Notifier::new(vec![100]);
    let deliveries = bot.plan(&Message::Reboot("".to_owned()));
    assert_eq!(deliveries.len(), 1);
    assert_eq!(deliveries[0].channel_id, 100);
    assert_eq!(deliveries[0].content, Message::Reboot("".to_owned()).to_string());
}

#[test]
fn send_to_multiple_channels() {
    let bot = Notifier::new(vec![100, 200, 300]);
    let deliveries = bot.plan(&Message::Reboot("".to_owned()));
    assert_eq!(deliveries.len(), 3);
    for (delivery, channel_id) in deliveries.iter().zip([100, 200, 300]) {
        assert_eq!(delivery.channel_id, channel_id);
        assert_eq!(delivery.content, Message::Reboot("".to_owned()).to_string());
    }
}

#[test]
fn message_templates_are_exact() {
    assert_eq!(
        Message::Change("203.0.113.7".to_owned()).to_string(),
        "IP address changed. ```203.0.113.7```".to_owned()
    );
    assert_eq!(
        Message::Reboot("203.0.113.7".to_owned()).to_string(),
        "System rebooted. Current IP address is: ```203.0.113.7```".to_owned()
    );
}

#[test]
fn one_failed_destination_leaves_the_others() {
    let bot = Notifier::new(vec![100, 200, 300]);
    let deliveries = bot.plan(&Message::Change("203.0.113.7".to_owned()));
    // the content handed to every destination is byte-identical
    assert_eq!(deliveries[0].content, deliveries[1].content);
    assert_eq!(deliveries[1].content, deliveries[2].content);

    // destination 200 fails, 100 and 300 succeed: exactly one failure
    let report = summarize(&vec![(100, true), (200, false), (300, true)]);
    assert_eq!(report.succeeded, vec![100, 300]);
    assert_eq!(report.failed, vec![200]);
}

#[test]
fn summarize_with_no_outcomes() {
    let report = summarize(&vec![]);
    assert!(report.succeeded.is_empty());
    assert!(report.failed.is_empty());
}

#[test]
fn three_ticks_one_lookup_failure() {
    // period = 1 unit, 3 ticks; the lookup answers on ticks 1 and 2 and
    // exits non-zero on tick 3: exactly 2 addresses come out.
    let mut scheduler = Scheduler::new(1);
    for _ in 0..3 {
        assert_eq!(scheduler.step(SchedulerEvent::PeriodElapsed), SchedulerAction::EmitTick);
    }
    let outcomes = vec![
        Ok(r#""203.0.113.7""#.to_owned()),
        Ok(r#""203.0.113.7""#.to_owned()),
        Err(DnsError::CommandFailed("dig".to_owned())),
    ];
    let dig = Dig::new(DigCommand::new());
    let addresses = run_pipeline(&dig, &outcomes);
    assert_eq!(addresses, vec!["203.0.113.7".to_owned(), "203.0.113.7".to_owned()]);
}

#[test]
fn failed_lookup_emits_no_address() {
    let dig = Dig::new(DigCommand::new());
    let outcomes = vec![Err(DnsError::CommandFailed("dig".to_owned()))];
    assert_eq!(run_pipeline(&dig, &outcomes), Vec::<String>::new());
}

#[test]
fn cancellation_after_second_tick() {
    // Two ticks are emitted and the cancellation fires before a third: the
    // pipeline drains both queued ticks, emits no third, and ends idle.
    let mut state = PipelineState::new(8);
    let mut scheduler = Scheduler::new(1);

    assert_eq!(scheduler.step(SchedulerEvent::PeriodElapsed), SchedulerAction::EmitTick);
    state.emit_tick();
    assert_eq!(scheduler.step(SchedulerEvent::PeriodElapsed), SchedulerAction::EmitTick);
    state.emit_tick();
    assert_eq!(scheduler.step(SchedulerEvent::CancellationFired), SchedulerAction::Stop);
    state.cancel();
    // a later timer wake-up emits nothing once stopped
    assert_eq!(scheduler.step(SchedulerEvent::PeriodElapsed), SchedulerAction::Stop);

    state.drain();
    assert_eq!(state.emitted, 2);
    assert_eq!(state.processed, 2);
}

#[test]
fn ticks_are_processed_once_in_order() {
    let mut state = PipelineState::new(2);
    state.emit_tick();
    state.emit_tick();
    assert_eq!(state.process_tick(), 0);
    state.emit_tick();
    assert_eq!(state.process_tick(), 1);
    assert_eq!(state.process_tick(), 2);
    assert_eq!(state.emitted, 3);
    assert_eq!(state.processed, 3);
}
