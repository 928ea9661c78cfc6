//! Runtime data sources that a text layer can display.
use vstd::prelude::*;

verus! {

/// A source of live data.
#[derive(Debug, Clone, Copy, PartialEq, Eq, Hash, Structural)]
pub enum DataBinding {
    CpuUsage,
    CpuTemperature,
    CpuFrequency,
    CpuVoltage,
    GpuUsage,
    GpuTemperature,
    GpuFrequency,
    MemoryUsage,
    MemoryFrequency,
    DiskTemperature,
    NetworkUpload,
    NetworkDownload,
    Clock,
    Date,
    WifiState,
    WifiName,
    WifiSsid,
    Fps,
}

/// The label shown for each data source.
pub open spec fn binding_label(binding: DataBinding) -> &'static str {
    match binding {
        DataBinding::CpuUsage => "CPU Usage",
        DataBinding::CpuTemperature => "CPU Temperature",
        DataBinding::CpuFrequency => "CPU Frequency",
        DataBinding::CpuVoltage => "CPU Voltage",
        DataBinding::GpuUsage => "GPU Usage",
        DataBinding::GpuTemperature => "GPU Temperature",
        DataBinding::GpuFrequency => "GPU Frequency",
        DataBinding::MemoryUsage => "Memory Usage",
        DataBinding::MemoryFrequency => "Memory Frequency",
        DataBinding::DiskTemperature => "Disk Temperature",
        DataBinding::NetworkUpload => "Network Upload",
        DataBinding::NetworkDownload => "Network Download",
        DataBinding::Clock => "Clock",
        DataBinding::Date => "Date",
        DataBinding::WifiState => "Wi-Fi State",
        DataBinding::WifiName => "Wi-Fi Name",
        DataBinding::WifiSsid => "Wi-Fi SSID",
        DataBinding::Fps => "FPS",
    }
}

impl DataBinding {
    /// Every data source, in declaration order.
    pub const ALL: [DataBinding; 18] = [
        DataBinding::CpuUsage,
        DataBinding::CpuTemperature,
        DataBinding::CpuFrequency,
        DataBinding::CpuVoltage,
        DataBinding::GpuUsage,
        DataBinding::GpuTemperature,
        DataBinding::GpuFrequency,
        DataBinding::MemoryUsage,
        DataBinding::MemoryFrequency,
        DataBinding::DiskTemperature,
        DataBinding::NetworkUpload,
        DataBinding::NetworkDownload,
        DataBinding::Clock,
        DataBinding::Date,
        DataBinding::WifiState,
        DataBinding::WifiName,
        DataBinding::WifiSsid,
        DataBinding::Fps,
    ];

    /// Human-readable name of the source.
    pub fn label(self) -> (label: &'static str)
        ensures
            label == binding_label(self),
    {
        match self {
            DataBinding::CpuUsage => "CPU Usage",
            DataBinding::CpuTemperature => "CPU Temperature",
            DataBinding::CpuFrequency => "CPU Frequency",
            DataBinding::CpuVoltage => "CPU Voltage",
            DataBinding::GpuUsage => "GPU Usage",
            DataBinding::GpuTemperature => "GPU Temperature",
            DataBinding::GpuFrequency => "GPU Frequency",
            DataBinding::MemoryUsage => "Memory Usage",
            DataBinding::MemoryFrequency => "Memory Frequency",
            DataBinding::DiskTemperature => "Disk Temperature",
            DataBinding::NetworkUpload => "Network Upload",
            DataBinding::NetworkDownload => "Network Download",
            DataBinding::Clock => "Clock",
            DataBinding::Date => "Date",
            DataBinding::WifiState => "Wi-Fi State",
            DataBinding::WifiName => "Wi-Fi Name",
            DataBinding::WifiSsid => "Wi-Fi SSID",
            DataBinding::Fps => "FPS",
        }
    }
}

/// A text layer's link to a data source: the value is shown between
/// `prefix` and `suffix`, numbers with `precision` decimal places.
#[derive(Debug)]
pub struct TextBinding {
    pub source: DataBinding,
    pub prefix: String,
    pub suffix: String,
    pub precision: u8,
}

impl Clone for TextBinding {
    fn clone(&self) -> (copy: TextBinding)
        ensures
            copy == *self,
    {
        TextBinding {
            source: self.source,
            prefix: self.prefix.clone(),
            suffix: self.suffix.clone(),
            precision: self.precision,
        }
    }
}

/// Decimal places used when a binding names none.
pub open spec fn spec_default_precision() -> u8 {
    0
}

/// Decimal places used when a binding names none.
pub fn default_precision() -> (precision: u8)
    ensures
        precision == spec_default_precision(),
{
    0
}

impl TextBinding {
    /// A binding to `source` with no prefix or suffix and the default precision.
    pub fn new(source: DataBinding) -> (binding: TextBinding)
        ensures
            binding.source == source,
            binding.prefix@ == Seq::<char>::empty(),
            binding.suffix@ == Seq::<char>::empty(),
            binding.precision == spec_default_precision(),
    {
        TextBinding {
            source,
            prefix: String::new(),
            suffix: String::new(),
            precision: default_precision(),
        }
    }

    /// The same binding with `prefix` in front of the value.
    pub fn with_prefix(self, prefix: &str) -> (binding: TextBinding)
        ensures
            binding.prefix@ == prefix@,
            binding.source == self.source,
            binding.suffix == self.suffix,
            binding.precision == self.precision,
    {
        let mut binding = self;
        binding.prefix = prefix.to_owned();
        binding
    }

    /// The same binding with `suffix` after the value.
    pub fn with_suffix(self, suffix: &str) -> (binding: TextBinding)
        ensures
            binding.suffix@ == suffix@,
            binding.source == self.source,
            binding.prefix == self.prefix,
            binding.precision == self.precision,
    {
        let mut binding = self;
        binding.suffix = suffix.to_owned();
        binding
    }

    /// The same binding with `precision` decimal places.
    pub fn with_precision(self, precision: u8) -> (binding: TextBinding)
        ensures
            binding.precision == precision,
            binding.source == self.source,
            binding.prefix == self.prefix,
            binding.suffix == self.suffix,
    {
        let mut binding = self;
        binding.precision = precision;
        binding
    }
}

/// Every data source has a non-empty label, and no two sources share one.
pub proof fn law_binding_labels_distinct(a: DataBinding, b: DataBinding)
    ensures
        binding_label(a)@.len() > 0,
        a != b ==> binding_label(a)@ != binding_label(b)@,
{
    reveal_strlit("CPU Usage");
    reveal_strlit("CPU Temperature");
    reveal_strlit("CPU Frequency");
    reveal_strlit("CPU Voltage");
    reveal_strlit("GPU Usage");
    reveal_strlit("GPU Temperature");
    reveal_strlit("GPU Frequency");
    reveal_strlit("Memory Usage");
    reveal_strlit("Memory Frequency");
    reveal_strlit("Disk Temperature");
    reveal_strlit("Network Upload");
    reveal_strlit("Network Download");
    reveal_strlit("Clock");
    reveal_strlit("Date");
    reveal_strlit("Wi-Fi State");
    reveal_strlit("Wi-Fi Name");
    reveal_strlit("Wi-Fi SSID");
    reveal_strlit("FPS");
    let la = binding_label(a)@;
    let lb = binding_label(b)@;
    if a != b && la == lb {
        assert(la.len() == lb.len());
        assert(la[0] == lb[0]);
        if la.len() > 6 {
            assert(la[6] == lb[6]);
        }
    }
}

} // verus!
