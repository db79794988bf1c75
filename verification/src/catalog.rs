//! The catalog of GPU telemetry metrics.

use vstd::prelude::*;

verus! {

/// One GPU telemetry metric, its wire key and display metadata, and whether it serializes with one
/// decimal place.
#[derive(Clone, Copy)]
pub struct MetricDef {
    pub key: &'static str,
    pub label: &'static str,
    pub unit: &'static str,
    pub max: Option<u32>,
    pub one_decimal: bool,
}

/// The number of metrics.
pub const METRIC_COUNT: usize = 12;

/// A metric definition.
pub open spec fn metric_def(
    key: &'static str,
    label: &'static str,
    unit: &'static str,
    max: Option<u32>,
    one_decimal: bool,
) -> MetricDef {
    MetricDef { key, label, unit, max, one_decimal }
}

/// Builds a metric definition, keeping each catalog row below to a single readable line.
fn metric(
    key: &'static str,
    label: &'static str,
    unit: &'static str,
    max: Option<u32>,
    one_decimal: bool,
) -> (def: MetricDef)
    ensures
        def == metric_def(key, label, unit, max, one_decimal),
{
    MetricDef { key, label, unit, max, one_decimal }
}

/// Telemetry metric catalog in display order. The memory metrics fb, bar1, and ccpm trail so they
/// render at the end, and only the PCIe metrics keep a decimal.
pub open spec fn metric_row(metric: int) -> MetricDef {
    if metric == 0 {
        metric_def("pwr", "Power Usage", "W", None, false)
    } else if metric == 1 {
        metric_def("sm", "Streaming Multiprocessor Utilization", "%", Some(100), false)
    } else if metric == 2 {
        metric_def("mem", "Memory Utilization", "%", Some(100), false)
    } else if metric == 3 {
        metric_def("rxpci", "PCIe RX", "MiB/s", None, true)
    } else if metric == 4 {
        metric_def("txpci", "PCIe TX", "MiB/s", None, true)
    } else if metric == 5 {
        metric_def("gtemp", "Temperature", "C", None, false)
    } else if metric == 6 {
        metric_def("pclk", "Processor Clock", "MHz", None, false)
    } else if metric == 7 {
        metric_def("pviol", "Power Violation", "%", None, false)
    } else if metric == 8 {
        metric_def("tviol", "Thermal Violation", "%", None, false)
    } else if metric == 9 {
        metric_def("fb", "Frame Buffer Memory", "MiB", None, false)
    } else if metric == 10 {
        metric_def("bar1", "BAR1 Memory", "MiB", None, false)
    } else {
        metric_def("ccpm", "Protected Memory", "MiB", None, false)
    }
}

/// The metric at a place of the catalog.
pub fn metric_at(metric: usize) -> (def: MetricDef)
    requires
        metric < METRIC_COUNT,
    ensures
        def == metric_row(metric as int),
{
    if metric == 0 {
        self::metric("pwr", "Power Usage", "W", None, false)
    } else if metric == 1 {
        self::metric("sm", "Streaming Multiprocessor Utilization", "%", Some(100), false)
    } else if metric == 2 {
        self::metric("mem", "Memory Utilization", "%", Some(100), false)
    } else if metric == 3 {
        self::metric("rxpci", "PCIe RX", "MiB/s", None, true)
    } else if metric == 4 {
        self::metric("txpci", "PCIe TX", "MiB/s", None, true)
    } else if metric == 5 {
        self::metric("gtemp", "Temperature", "C", None, false)
    } else if metric == 6 {
        self::metric("pclk", "Processor Clock", "MHz", None, false)
    } else if metric == 7 {
        self::metric("pviol", "Power Violation", "%", None, false)
    } else if metric == 8 {
        self::metric("tviol", "Thermal Violation", "%", None, false)
    } else if metric == 9 {
        self::metric("fb", "Frame Buffer Memory", "MiB", None, false)
    } else if metric == 10 {
        self::metric("bar1", "BAR1 Memory", "MiB", None, false)
    } else {
        self::metric("ccpm", "Protected Memory", "MiB", None, false)
    }
}

/// Those of the first `count` metrics that are present.
pub open spec fn present_upto(present: Seq<bool>, count: int) -> Seq<MetricDef>
    decreases count,
{
    if count <= 0 {
        seq![]
    } else if present[count - 1] {
        present_upto(present, count - 1).push(metric_row(count - 1))
    } else {
        present_upto(present, count - 1)
    }
}

/// The metrics that any node reported, in display order.
pub fn present_metrics(present: &Vec<bool>) -> (metrics: Vec<MetricDef>)
    requires
        present@.len() == METRIC_COUNT,
    ensures
        metrics@ == present_upto(present@, METRIC_COUNT as int),
{
    let mut metrics: Vec<MetricDef> = Vec::new();
    for i in 0..METRIC_COUNT
        invariant
            present@.len() == METRIC_COUNT,
            metrics@ == present_upto(present@, i as int),
    {
        if present[i] {
            metrics.push(metric_at(i));
        }
    }
    metrics
}

} // verus!
