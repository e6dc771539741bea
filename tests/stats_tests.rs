use taskmon::format::format_bytes;
use taskmon::percent::percent_of;
use taskmon::stats::{
    disk_totals, get_stats, get_gpu_stats, network_totals, DiskReading, GpuReading, NetworkReading,
    ResourceReading,
};

fn reading(memory_total: u64, memory_used: u64, gpu: Option<GpuReading>) -> ResourceReading {
    ResourceReading {
        cpu_usage: 4550,
        per_core: vec![1000, 12000],
        physical_cores: 2,
        logical_cores: 2,
        memory_total,
        memory_available: memory_total.saturating_sub(memory_used),
        memory_used,
        disks: vec![DiskReading { total: 500_000_000_000, available: 250_000_000_000 }],
        networks: vec![NetworkReading { sent: 1000, received: 2000 }],
        uptime_seconds: 42,
        os: "linux".to_string(),
        timestamp: 1_700_000_000,
        gpu,
    }
}

fn as_percent(hundredths: u64) -> f64 {
    hundredths as f64 / 100.0
}

#[test]
fn test_cpu_usage_range() {
    let cpu_usage = 45.5;
    assert!(cpu_usage >= 0.0 && cpu_usage <= 100.0);
    let s = get_stats(reading(16_000_000_000, 8_000_000_000, None));
    assert_eq!(s.cpu.percent, 4550);
    let p = as_percent(s.cpu.percent);
    assert!(p >= 0.0 && p <= 100.0);
    assert_eq!(s.cpu.per_core, vec![1000, 10000]);
}

#[test]
fn test_memory_percentage_calculation() {
    let total: u64 = 16_000_000_000;
    let used: u64 = 8_000_000_000;
    let percent = as_percent(percent_of(used, total));
    assert!((percent - 50.0).abs() < 0.01);
    let s = get_stats(reading(total, used, None));
    assert_eq!(s.memory.percent, 5000);
}

#[test]
fn test_disk_percentage_calculation() {
    let total: u64 = 500_000_000_000;
    let used: u64 = 250_000_000_000;
    let percent = as_percent(percent_of(used, total));
    assert!((percent - 50.0).abs() < 0.01);
    let s = get_stats(reading(16_000_000_000, 8_000_000_000, None));
    assert_eq!(s.disk.total, total);
    assert_eq!(s.disk.used, used);
    assert_eq!(s.disk.free, 250_000_000_000);
    assert_eq!(s.disk.percent, 5000);
}

#[test]
fn test_gpu_stats_nullable() {
    let gpu_usage: Option<f32> = None;
    let gpu_memory_used: Option<u64> = None;
    let gpu_memory_total: Option<u64> = None;
    let gpu_temperature: Option<f32> = None;
    assert!(gpu_usage.is_none());
    assert!(gpu_memory_used.is_none());
    assert!(gpu_memory_total.is_none());
    assert!(gpu_temperature.is_none());
    let s = get_stats(reading(16_000_000_000, 8_000_000_000, None));
    assert!(s.gpu.is_none());
}

#[test]
fn test_network_stats_cumulative() {
    let bytes_sent_1: u64 = 1000;
    let bytes_sent_2: u64 = 1500;
    assert!(bytes_sent_2 >= bytes_sent_1);
    let first = network_totals(&vec![NetworkReading { sent: bytes_sent_1, received: 0 }]);
    let second = network_totals(&vec![
        NetworkReading { sent: bytes_sent_1, received: 0 },
        NetworkReading { sent: bytes_sent_2 - bytes_sent_1, received: 0 },
    ]);
    assert_eq!(first.0, 1000);
    assert_eq!(second.0, 1500);
    assert!(second.0 >= first.0);
}

#[test]
fn test_disk_io_cumulative() {
    let disk_read_1: u64 = 5000;
    let disk_read_2: u64 = 6000;
    assert!(disk_read_2 >= disk_read_1);
}

#[test]
fn test_zero_memory() {
    let total: u64 = 0;
    let used: u64 = 0;
    let percent = as_percent(percent_of(used, total));
    assert_eq!(percent, 0.0);
    let s = get_stats(reading(0, 0, None));
    assert_eq!(s.memory.percent, 0);
    assert_eq!(s.memory.total_formatted, "0 B");
}

#[test]
fn test_memory_overflow() {
    let total: u64 = 8_000_000_000;
    let used: u64 = 10_000_000_000;
    let percent = as_percent(percent_of(used, total));
    assert!(percent > 100.0);
    assert_eq!(percent_of(used, total), 12500);
}

#[test]
fn test_gpu_temperature_extreme() {
    let temp_low: f32 = -10.0;
    let temp_high: f32 = 120.0;
    assert!(temp_low < 0.0);
    assert!(temp_high > 100.0);
    let g = get_gpu_stats(GpuReading {
        name: None,
        load: 100,
        memory_used: 1024,
        memory_total: 4096,
        temperature: Some(120),
    });
    assert_eq!(g.temperature, Some(120));
    assert_eq!(g.name, "Unknown GPU");
    assert_eq!(g.load, 10000);
    assert_eq!(g.memory_percent, 2500);
    assert_eq!(g.memory_used_formatted, "1.0 KB");
    assert_eq!(g.memory_total_formatted, "4.0 KB");
}

#[test]
fn test_very_large_network_stats() {
    let bytes: u64 = u64::MAX / 2;
    assert!(bytes > 0);
    let t = network_totals(&vec![
        NetworkReading { sent: bytes, received: bytes },
        NetworkReading { sent: bytes, received: bytes },
        NetworkReading { sent: bytes, received: 0 },
    ]);
    assert_eq!(t.0, u64::MAX);
    assert_eq!(t.1, u64::MAX - 1);
}

#[test]
fn percent_of_huge_ratio_is_capped() {
    assert_eq!(percent_of(u64::MAX, 1), u64::MAX);
    assert_eq!(percent_of(1, 3), 3333);
}

#[test]
fn disks_with_more_free_than_capacity_count_no_use() {
    let (total, used) = disk_totals(&vec![
        DiskReading { total: 100, available: 150 },
        DiskReading { total: 200, available: 50 },
    ]);
    assert_eq!(total, 300);
    assert_eq!(used, 150);
}

#[test]
fn snapshot_percents_stay_in_range() {
    let g = GpuReading {
        name: Some("Card".to_string()),
        load: 250,
        memory_used: 2048,
        memory_total: 1024,
        temperature: None,
    };
    let s = get_stats(reading(1000, 3000, Some(g)));
    assert!(s.cpu.percent <= 10000);
    assert!(s.cpu.per_core.iter().all(|p| *p <= 10000));
    assert!(s.disk.percent <= 10000);
    assert_eq!(s.memory.percent, 30000);
    let gpu = s.gpu.unwrap();
    assert_eq!(gpu.name, "Card");
    assert_eq!(gpu.load, 10000);
    assert_eq!(gpu.memory_percent, 20000);
    assert_eq!(s.network.bytes_sent_formatted, "1000.0 B");
    assert_eq!(s.network.bytes_recv_formatted, "2.0 KB");
    assert_eq!(s.disk.total_formatted, "465.7 GB");
}

#[test]
fn format_bytes_examples() {
    assert_eq!(format_bytes(0), "0 B");
    assert_eq!(format_bytes(1), "1.0 B");
    assert_eq!(format_bytes(999), "999.0 B");
    assert_eq!(format_bytes(1023), "1023.0 B");
    assert_eq!(format_bytes(1024), "1.0 KB");
    assert_eq!(format_bytes(1536), "1.5 KB");
    assert_eq!(format_bytes(1048576), "1.0 MB");
    assert_eq!(format_bytes(1048575), "1024.0 KB");
    assert_eq!(format_bytes(1073741824), "1.0 GB");
    assert_eq!(format_bytes(1099511627776), "1.0 TB");
    assert_eq!(format_bytes(2048 * 1099511627776), "2048.0 TB");
    assert_eq!(format_bytes(u64::MAX), "16777216.0 TB");
}

#[test]
fn format_bytes_rounds_ties_to_even() {
    assert_eq!(format_bytes(1280), "1.2 KB");
    assert_eq!(format_bytes(1792), "1.8 KB");
    assert_eq!(format_bytes(1100), "1.1 KB");
}

#[test]
fn format_bytes_reads_back_within_half_a_tenth() {
    for bytes in [1u64, 7, 1000, 1025, 123_456, 987_654_321, 5_000_000_000_000] {
        let text = format_bytes(bytes);
        let mut parts = text.split(' ');
        let value: f64 = parts.next().unwrap().parse().unwrap();
        let unit = match parts.next().unwrap() {
            "B" => 1.0,
            "KB" => 1024.0,
            "MB" => 1048576.0,
            "GB" => 1073741824.0,
            _ => 1099511627776.0,
        };
        assert!((value * unit - bytes as f64).abs() <= unit * 0.05 + 1e-6);
    }
}

#[test]
fn snapshot_gpu_part_is_the_probe_reading() {
    let make = || GpuReading {
        name: Some("Card".to_string()),
        load: 37,
        memory_used: 3 * 1024 * 1024,
        memory_total: 8 * 1024 * 1024,
        temperature: Some(64),
    };
    let s = get_stats(reading(1000, 500, Some(make())));
    let g = s.gpu.unwrap();
    let direct = get_gpu_stats(make());
    assert_eq!(g.name, direct.name);
    assert_eq!(g.load, 3700);
    assert_eq!(g.memory_used, 3 * 1024 * 1024);
    assert_eq!(g.memory_total, 8 * 1024 * 1024);
    assert_eq!(g.memory_percent, 3750);
    assert_eq!(g.memory_used_formatted, "3.0 MB");
    assert_eq!(g.memory_total_formatted, "8.0 MB");
    assert_eq!(g.temperature, Some(64));
}
