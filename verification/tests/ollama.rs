use gpu_arbiter::config::Config;
use gpu_arbiter::gpu::{GpuError, GpuMemory};
use gpu_arbiter::ollama::{vram_is_free, OllamaError};

#[test]
fn ollama_vram_free_predicate() {
    let cfg = Config::default();
    assert!(vram_is_free(
        GpuMemory {
            used_mb: 500,
            total_mb: 32768
        },
        &cfg
    ));
    assert!(!vram_is_free(
        GpuMemory {
            used_mb: 21000,
            total_mb: 32768
        },
        &cfg
    ));
    assert!(!vram_is_free(
        GpuMemory {
            used_mb: 2000,
            total_mb: 32768
        },
        &cfg
    ));
}

#[test]
fn ollama_errors_say_what_went_wrong() {
    let e = OllamaError::Systemctl {
        action: "stop".into(),
        unit: "ollama.service".into(),
        detail: "boom".into(),
    };
    assert_eq!(e.message(), "systemctl stop ollama.service failed: boom");
    let e = OllamaError::Gpu(GpuError::Parse("x".into()));
    assert_eq!(e.message(), "gpu query during eviction: parsing gpu output: x");
}
