use vapor_daemon::metrics::{
    sampled_document, throttle_inputs_source, ScriptedMetricsSampler, ThermalPressure,
    ThrottleInputs, ThrottleInputsFile, ThrottleInputsSource,
};
use vapor_daemon::paths::FsPath;

#[test]
fn scripted_sampler_advances_through_sequence_then_clamps_to_last() {
    let first = ThrottleInputs::default();
    let second = ThrottleInputs {
        thermal_pressure: ThermalPressure::Fair,
        ..ThrottleInputs::default()
    };
    let mut sampler = ScriptedMetricsSampler::new(vec![first, second]);

    assert_eq!(sampler.sample(), first);
    assert_eq!(sampler.sample(), second);
    // Sequence exhausted: subsequent samples clamp to the last value.
    assert_eq!(sampler.sample(), second);
    assert_eq!(sampler.sample(), second);
}

#[test]
fn neutral_inputs_report_a_light_load() {
    let inputs = ThrottleInputs::default();
    assert_eq!(inputs.system_cpu_load_percent, 10);
    assert!(!inputs.on_battery && !inputs.low_power_mode && !inputs.user_active);
}

#[test]
fn a_missing_document_samples_as_the_neutral_inputs() {
    assert_eq!(sampled_document(None), ThrottleInputsFile::default());
    let document = ThrottleInputsFile {
        inputs: ThrottleInputs {
            on_battery: true,
            system_cpu_load_percent: 90,
            user_active: true,
            ..ThrottleInputs::default()
        },
        idle_seconds: 42,
    };
    assert_eq!(sampled_document(Some(document)), document);
}

#[test]
fn the_source_of_inputs_is_read_from_its_name() {
    assert_eq!(throttle_inputs_source(None), ThrottleInputsSource::Host);
    assert_eq!(
        throttle_inputs_source(Some(" static ")),
        ThrottleInputsSource::Static
    );
    assert_eq!(
        throttle_inputs_source(Some("file:/tmp/inputs.json")),
        ThrottleInputsSource::File(FsPath::new("/tmp/inputs.json"))
    );
    for value in ["", "host", "file:", "Static", "nonsense"] {
        assert_eq!(
            throttle_inputs_source(Some(value)),
            ThrottleInputsSource::Host,
            "{value}"
        );
    }
}
