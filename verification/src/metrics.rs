//! Measurements as they are handed out to be scraped.

use vstd::prelude::*;

verus! {

/// How a measurement changes over time.
#[derive(Clone, Copy, Debug, PartialEq, Eq, Structural)]
pub enum MetricType {
    Counter,
    Gauge,
}

/// What a measurement is counted in.
#[derive(Clone, Copy, Debug, PartialEq, Eq, Structural)]
pub enum MetricUnit {
    Total,
    State,
    Microsecond,
    Millisecond,
}

/// Describes a measurement.
#[derive(Clone, Copy, Debug)]
pub struct Metric {
    pub name: &'static str,
    pub help: &'static str,
    pub metric_type: MetricType,
    pub unit: MetricUnit,
}

/// What a [`Metric`] holds.
pub ghost struct MetricView {
    pub name: Seq<char>,
    pub help: Seq<char>,
    pub metric_type: MetricType,
    pub unit: MetricUnit,
}

impl View for Metric {
    type V = MetricView;

    open spec fn view(&self) -> MetricView {
        MetricView {
            name: self.name@,
            help: self.help@,
            metric_type: self.metric_type,
            unit: self.unit,
        }
    }
}

/// A counter of things.
pub open spec fn counter(name: Seq<char>, help: Seq<char>) -> MetricView {
    MetricView { name, help, metric_type: MetricType::Counter, unit: MetricUnit::Total }
}

/// A gauge in some unit.
pub open spec fn gauge(name: Seq<char>, help: Seq<char>, unit: MetricUnit) -> MetricView {
    MetricView { name, help, metric_type: MetricType::Gauge, unit }
}

impl Metric {
    /// Describes a measurement.
    pub fn new(
        name: &'static str,
        help: &'static str,
        metric_type: MetricType,
        unit: MetricUnit,
    ) -> (r: Metric)
        ensures
            r@ == (MetricView { name: name@, help: help@, metric_type, unit }),
    {
        Metric { name, help, metric_type, unit }
    }
}

/// One value of a measurement.
#[derive(Debug)]
pub struct Sample {
    pub metric: Metric,
    /// The component that the value belongs to; none for one of the process.
    pub unit_name: Option<String>,
    pub labels: Vec<(String, String)>,
    pub value: u64,
}

/// What a [`Sample`] holds.
pub ghost struct SampleView {
    pub metric: MetricView,
    pub unit_name: Option<Seq<char>>,
    pub labels: Seq<(Seq<char>, Seq<char>)>,
    pub value: u64,
}

/// What some labels hold.
pub open spec fn label_views(labels: Seq<(String, String)>) -> Seq<(Seq<char>, Seq<char>)> {
    labels.map_values(|label: (String, String)| (label.0@, label.1@))
}

impl View for Sample {
    type V = SampleView;

    open spec fn view(&self) -> SampleView {
        SampleView {
            metric: self.metric@,
            unit_name: match self.unit_name {
                Some(name) => Some(name@),
                None => None,
            },
            labels: label_views(self.labels@),
            value: self.value,
        }
    }
}

/// A value without labels.
pub open spec fn simple(metric: MetricView, unit_name: Seq<char>, value: u64) -> SampleView {
    SampleView { metric, unit_name: Some(unit_name), labels: seq![], value }
}

/// A value of the process with labels.
pub open spec fn labelled(
    metric: MetricView,
    labels: Seq<(Seq<char>, Seq<char>)>,
    value: u64,
) -> SampleView {
    SampleView { metric, unit_name: None, labels, value }
}

/// Takes in samples.
#[derive(Debug)]
pub struct Target {
    pub samples: Vec<Sample>,
}

impl View for Target {
    type V = Seq<SampleView>;

    open spec fn view(&self) -> Seq<SampleView> {
        self.samples@.map_values(|sample: Sample| sample@)
    }
}

impl Target {
    /// A target that has taken in nothing.
    pub fn new() -> (r: Target)
        ensures
            r@ == Seq::<SampleView>::empty(),
    {
        let r = Target { samples: Vec::new() };
        assert(r@ =~= Seq::<SampleView>::empty());
        r
    }

    /// Takes in a sample.
    pub fn append(&mut self, sample: Sample)
        ensures
            final(self)@ == old(self)@.push(sample@),
    {
        self.samples.push(sample);
        assert(self@ =~= old(self)@.push(sample@));
    }

    /// Takes in a value of a component, without labels.
    pub fn append_simple(&mut self, metric: Metric, unit_name: &str, value: u64)
        ensures
            final(self)@ == old(self)@.push(simple(metric@, unit_name@, value)),
    {
        let sample = Sample {
            metric,
            unit_name: Some(unit_name.to_owned()),
            labels: Vec::new(),
            value,
        };
        assert(sample@.labels =~= seq![]);
        self.append(sample);
    }
}

/// A list of labels with one label more.
pub fn label(labels: Vec<(String, String)>, key: &str, value: &str) -> (r: Vec<(String, String)>)
    ensures
        label_views(r@) == label_views(labels@).push((key@, value@)),
{
    let ghost before = labels@;
    let mut labels = labels;
    labels.push((key.to_owned(), value.to_owned()));
    assert(label_views(labels@) =~= label_views(before).push((key@, value@)));
    labels
}

/// Whether some samples hold a value under a name, which only grows.
pub open spec fn measured_as_counter(samples: Seq<SampleView>, name: Seq<char>, value: u64) -> bool {
    exists|i: int|
        0 <= i < samples.len() && (#[trigger] samples[i]).metric.name == name && samples[i].value
            == value && samples[i].metric.metric_type is Counter && samples[i].metric.unit is Total
}

/// Whether some samples hold a value under a name, which goes up and down.
pub open spec fn measured_as_gauge(
    samples: Seq<SampleView>,
    name: Seq<char>,
    unit: MetricUnit,
    value: u64,
) -> bool {
    exists|i: int|
        0 <= i < samples.len() && (#[trigger] samples[i]).metric.name == name && samples[i].value
            == value && samples[i].metric.metric_type is Gauge && samples[i].metric.unit == unit
}

} // verus!
