use birb_monitor::utils::TimedTaskEvent;
use birb_monitor::backend::sysinfo::{
    samples_on, SysinfoCommand,
    ComponentsSnapshot, CpuStats, DiskIoStats, GeneralStats, NetworkStats, PidV, ProcessSnapshot, SystemCollector,
};

#[test]
fn interface_totals_add_up_and_saturate() {
    let stats = NetworkStats::from_interface_totals(&vec![(10, 1), (20, 2), (30, 3)]);
    assert_eq!(stats, NetworkStats { total_received: 60, total_transmitted: 6 });
    let saturated = NetworkStats::from_interface_totals(&vec![(u64::MAX - 1, 5), (2, 5)]);
    assert_eq!(saturated, NetworkStats { total_received: u64::MAX, total_transmitted: 10 });
    assert_eq!(NetworkStats::from_interface_totals(&vec![]), NetworkStats::take_default());
}

#[test]
fn disk_totals_add_up_and_saturate() {
    let stats = DiskIoStats::from_disk_totals(&vec![(4096, 512), (1, 1)]);
    assert_eq!(stats, DiskIoStats { total_read_bytes: 4097, total_written_bytes: 513 });
    let saturated = DiskIoStats::from_disk_totals(&vec![(7, u64::MAX), (7, u64::MAX)]);
    assert_eq!(saturated, DiskIoStats { total_read_bytes: 14, total_written_bytes: u64::MAX });
    assert_eq!(DiskIoStats::from_disk_totals(&vec![]), DiskIoStats::take_default());
}

#[test]
fn totals_ignore_listing_order() {
    let forward = vec![(u64::MAX - 3, 9), (2, 1), (7, 40)];
    let backward = vec![(7, 40), (2, 1), (u64::MAX - 3, 9)];
    assert_eq!(
        NetworkStats::from_interface_totals(&forward),
        NetworkStats::from_interface_totals(&backward)
    );
    assert_eq!(DiskIoStats::from_disk_totals(&forward), DiskIoStats::from_disk_totals(&backward));
    assert_eq!(
        NetworkStats::from_interface_totals(&forward),
        NetworkStats { total_received: u64::MAX, total_transmitted: 50 }
    );
}

#[test]
fn defaults_are_zero() {
    assert_eq!(NetworkStats::take_default(), NetworkStats { total_received: 0, total_transmitted: 0 });
    assert_eq!(DiskIoStats::take_default(), DiskIoStats { total_read_bytes: 0, total_written_bytes: 0 });
}

#[test]
fn pid_numbers_convert_to_platform_pids() {
    assert_eq!(PidV(4242).to_pid(), sysinfo::Pid::from_u32(4242));
    assert_eq!(PidV(1).to_pid().as_u32(), 1);
}

#[test]
fn collector_reads_this_machine() {
    if let Some(mut collector) = SystemCollector::new() {
        collector.refresh_devices();
        let general: GeneralStats = GeneralStats::take(&mut collector.sys);
        assert!(general.used_memory <= general.total_memory);
        let _network = NetworkStats::take(&collector.networks);
        let _disks = DiskIoStats::take(&collector.disks);
        let reading = collector.sample();
        assert_eq!(reading.pids.len(), reading.processes.len());
        assert!(reading.pids.iter().zip(&reading.processes).all(|(pid, p)| *pid == p.pid));
        assert!(!reading.processes.is_empty());
        assert_eq!(reading.cpu_stats.per_cpu_usage_bits.len(), collector.sys.cpus().len());
    }
}

#[test]
fn temperature_sample_lists_every_sensor() {
    if let Ok(mut components) = sysinfo::Components::new_with_refreshed_list() {
        let sample = ComponentsSnapshot::sample(&mut components);
        assert_eq!(sample.component_stats.components.len(), components.len());
        for (reading, sensor) in sample.component_stats.components.iter().zip(components.iter()) {
            assert_eq!(reading.label, sensor.label());
        }
    }
}

#[test]
fn readings_match_what_sysinfo_holds() {
    if let Some(mut collector) = SystemCollector::new() {
        let general = GeneralStats::take(&mut collector.sys);
        assert_eq!(general.total_memory, collector.sys.total_memory());
        assert_eq!(general.used_swap, collector.sys.used_swap());
        let cpu = CpuStats::take(&collector.sys);
        assert_eq!(cpu.global_usage_bits, collector.sys.global_cpu_usage().to_bits());
        let usages: Vec<u32> = collector.sys.cpus().iter().map(|c| c.usage().to_bits()).collect();
        assert_eq!(cpu.per_cpu_usage_bits, usages);
        for process in collector.sys.processes().values().take(5) {
            let reading = ProcessSnapshot::take(process);
            assert_eq!(reading.pid.0, process.pid().as_u32());
            assert_eq!(reading.memory, process.memory());
            assert_eq!(reading.start_time, process.start_time());
            assert_eq!(reading.name, process.name().to_string_lossy());
            assert_eq!(reading.cmd.len(), process.cmd().len());
            assert_eq!(reading.accumulated_cpu_time.as_nanos(), process.accumulated_cpu_time() as u128 * 1_000_000);
        }
        let disks = DiskIoStats::take(&collector.disks);
        let read: u64 = collector.disks.iter().map(|d| d.usage().total_read_bytes).fold(0u64, |a, b| a.saturating_add(b));
        assert_eq!(disks.total_read_bytes, read);
    }
}

#[test]
fn collectors_sample_on_every_event_until_the_output_closes() {
    assert!(samples_on(&TimedTaskEvent::Tick, false));
    assert!(samples_on(&TimedTaskEvent::Message(SysinfoCommand::Refresh), false));
    assert!(!samples_on(&TimedTaskEvent::Tick, true));
    assert!(!samples_on(&TimedTaskEvent::Message(SysinfoCommand::Refresh), true));
}
